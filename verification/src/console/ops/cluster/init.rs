//! Bringing up the metadata group: store 0, group 0.

use vstd::prelude::*;

use crate::console::config::{clone_text, GroupRecord, Registry, ReplicaEntry, StoreRecord};
use crate::console::error::Error;
use crate::console::ops::cluster::ClusterWrite;
use crate::console::ops::context::OpContext;
#[allow(unused_imports)]
use crate::console::topology;
#[allow(unused_imports)]
use crate::lists;
#[allow(unused_imports)]
use crate::ordered;
#[allow(unused_imports)]
use crate::ordered::HasKey;
#[allow(unused_imports)]
use crate::rpc::endpoint;
use crate::rpc::endpoint::strip_scheme;
#[allow(unused_imports)]
use crate::text;
use crate::text::{decimal_text, find_first, strip_prefix, text_chars};

verus! {

/// What a node is asked for: to hold a replica of the metadata group, and to
/// stand for election at once where it is the only one.
#[derive(Debug, Clone, Copy, PartialEq, Eq, Structural)]
pub struct InitTarget {
    pub node_id: u64,
    pub replica_id: u64,
    pub start_election: bool,
}

/// The entries of `s`, each where it first occurs.
pub open spec fn first_occurrences(s: Seq<u64>) -> Seq<u64>
    decreases s.len(),
{
    if s.len() == 0 {
        s
    } else {
        let before = first_occurrences(s.drop_last());
        if s.drop_last().contains(s.last()) {
            before
        } else {
            before.push(s.last())
        }
    }
}

/// The first occurrences are all different, and leave nothing out.
pub proof fn lemma_first_occurrences(s: Seq<u64>)
    ensures
        first_occurrences(s).no_duplicates(),
        forall|x: u64| #[trigger] first_occurrences(s).contains(x) == s.contains(x),
        s.len() > 0 ==> first_occurrences(s).len() > 0,
    decreases s.len(),
{
    if s.len() > 0 {
        let t = s.drop_last();
        lemma_first_occurrences(t);
        let before = first_occurrences(t);
        let x0 = s.last();
        assert(s =~= t.push(x0));
        assert forall|x: u64| #[trigger] first_occurrences(s).contains(x) == s.contains(x) by {
            lemma_push_contains(t, x0, x);
            lemma_push_contains(before, x0, x);
            assert(before.contains(x) == t.contains(x));
        }
        assert(before.contains(x0) == t.contains(x0));
        assert(first_occurrences(s).contains(x0) == s.contains(x0));
        assert(s[s.len() - 1] == x0);
    }
}

proof fn lemma_push_contains(s: Seq<u64>, y: u64, x: u64)
    ensures
        s.push(y).contains(x) == (s.contains(x) || x == y),
{
    let t = s.push(y);
    if s.contains(x) {
        let i = choose|i: int| 0 <= i < s.len() && s[i] == x;
        assert(t[i] == x);
    }
    if x == y {
        assert(t[s.len() as int] == x);
    }
    if t.contains(x) {
        let i = choose|i: int| 0 <= i < t.len() && t[i] == x;
        if i < s.len() {
            assert(s[i] == x);
        }
    }
}

/// What the nodes are asked for. A node that is listed again is asked once;
/// replicas are numbered from 1. Refuses an empty list.
pub fn init(nodes: &Vec<u64>) -> (r: Result<Vec<InitTarget>, Error>)
    ensures
        if nodes@.len() == 0 {
            r matches Err(e) && e.is_validation("nodes"@, "nodes list must not be empty"@)
        } else {
            r matches Ok(t) && {
                let targets = first_occurrences(nodes@);
                &&& t@.len() == targets.len()
                &&& forall|i: int|
                    0 <= i < t@.len() ==> #[trigger] t@[i] == (InitTarget {
                        node_id: targets[i],
                        replica_id: (1 + i) as u64,
                        start_election: targets.len() == 1,
                    })
            }
        },
{
    if nodes.len() == 0 {
        return Err(Error::validation("nodes", "nodes list must not be empty".to_owned()));
    }
    let mut seen: Vec<u64> = Vec::new();
    let mut i: usize = 0;
    assert(nodes@.take(0) =~= Seq::<u64>::empty());
    while i < nodes.len()
        invariant
            i <= nodes@.len(),
            seen@ == first_occurrences(nodes@.take(i as int)),
        decreases nodes@.len() - i,
    {
        let x: u64 = nodes[i];
        let accepts = |y: &u64| -> (b: bool)
            ensures
                b == (*y == x)
        { *y == x };
        let known = lists::position(&seen, accepts, Ghost(|y: u64| y == x));
        proof {
            let t = nodes@.take(i + 1);
            assert(t.drop_last() =~= nodes@.take(i as int));
            assert(t.last() == x);
            lemma_first_occurrences(nodes@.take(i as int));
            assert(seen@.contains(x) == nodes@.take(i as int).contains(x));
            if let Some(k) = known {
                assert(seen@[k as int] == x);
            }
        }
        if known.is_none() {
            seen.push(x);
        }
        i = i + 1;
    }
    assert(nodes@.take(i as int) =~= nodes@);
    let single = seen.len() == 1;
    let mut out: Vec<InitTarget> = Vec::new();
    let mut k: usize = 0;
    while k < seen.len()
        invariant
            k <= seen@.len(),
            out@.len() == k,
            single == (seen@.len() == 1),
            forall|j: int|
                0 <= j < k ==> #[trigger] out@[j] == (InitTarget {
                    node_id: seen@[j],
                    replica_id: (1 + j) as u64,
                    start_election: single,
                }),
        decreases seen@.len() - k,
    {
        out.push(
            InitTarget { node_id: seen[k], replica_id: 1 + k as u64, start_election: single },
        );
        k = k + 1;
    }
    Ok(out)
}

/// The error of a server that no client can be made for.
pub fn client_build_error(url: &str, detail: &str) -> (e: Error)
    ensures
        e.is_upstream(url@, "client build: "@ + detail@),
{
    let mut s = "client build: ".to_owned();
    s.append(detail);
    Error::upstream(url, s)
}

/// What became of a node that was asked.
#[derive(Debug, Clone, PartialEq, Eq)]
pub enum InitEvent {
    /// There is nobody to ask.
    NoClient(Error),
    /// It does not answer.
    Unhealthy(String),
    /// It has its replica.
    Initialized,
    /// It refused or failed.
    Refused(Error),
}

/// A refusal because the node has its replica already.
pub open spec fn already_initialized(e: Error) -> bool {
    e matches Error::UpstreamRpc { status, .. } && text::first_occurrence(status@, "409"@, 0)
        is Some
}

fn contains_text(s: &str, needle: &str) -> (r: bool)
    ensures
        r == (text::first_occurrence(s@, needle@, 0) is Some),
{
    let v = text_chars(s);
    let p = text_chars(needle);
    find_first(&v, &p).is_some()
}

/// What a node's answer comes to. A node that has its replica already counts
/// as a success.
pub fn init_outcome(target: InitTarget, event: InitEvent) -> (r: Result<(u64, u64), Error>)
    ensures
        match event {
            InitEvent::NoClient(e) => r == Err::<(u64, u64), Error>(e),
            InitEvent::Unhealthy(t) => r matches Err(e) && e.is_unreachable(
                text::decimal(target.node_id as nat),
                t@,
            ),
            InitEvent::Initialized => r == Ok::<(u64, u64), Error>(
                (target.node_id, target.replica_id),
            ),
            InitEvent::Refused(e) => if already_initialized(e) {
                r == Ok::<(u64, u64), Error>((target.node_id, target.replica_id))
            } else {
                r matches Err(x) && x.is_upstream(
                    text::decimal(target.node_id as nat),
                    "system/init failed: "@ + e.text(),
                )
            },
        },
{
    match event {
        InitEvent::NoClient(e) => Err(e),
        InitEvent::Unhealthy(t) => Err(Error::unreachable(decimal_text(target.node_id), t)),
        InitEvent::Initialized => Ok((target.node_id, target.replica_id)),
        InitEvent::Refused(e) => {
            let already = match &e {
                Error::UpstreamRpc { status, .. } => contains_text(status.as_str(), "409"),
                _ => false,
            };
            if already {
                Ok((target.node_id, target.replica_id))
            } else {
                let mut s = "system/init failed: ".to_owned();
                s.append(e.message().as_str());
                Err(Error::upstream(decimal_text(target.node_id).as_str(), s))
            }
        },
    }
}

/// The nodes that have their replica, and the first failure. With a failure,
/// the group is to be taken off the nodes again.
#[derive(Debug, Clone, PartialEq, Eq)]
pub struct InitResults {
    pub succeeded: Vec<(u64, u64)>,
    pub failure: Option<Error>,
}

/// The successes of a list of results.
pub open spec fn successes(results: Seq<Result<(u64, u64), Error>>) -> Seq<(u64, u64)> {
    results.filter(|r: Result<(u64, u64), Error>| r is Ok).map_values(
        |r: Result<(u64, u64), Error>| r->Ok_0,
    )
}

/// Takes the nodes' results together.
pub fn collect_init(results: Vec<Result<(u64, u64), Error>>) -> (c: InitResults)
    ensures
        c.succeeded@ == successes(results@),
        match lists::first_index(results@, |r: Result<(u64, u64), Error>| r is Err) {
            Some(i) => c.failure == Some(results@[i]->Err_0),
            None => c.failure is None,
        },
{
    let ghost all = results@;
    let ghost p = |r: Result<(u64, u64), Error>| r is Ok;
    let ghost g = |r: Result<(u64, u64), Error>| r->Ok_0;
    let ghost q = |r: Result<(u64, u64), Error>| r is Err;
    let mut succeeded: Vec<(u64, u64)> = Vec::new();
    let mut failure: Option<Error> = None;
    let ghost mut first: int = 0;
    proof {
        reveal(Seq::filter);
        assert(succeeded@ =~= successes(all.take(0)));
    }
    for x in it: results
        invariant
            it.seq() == all,
            p == (|r: Result<(u64, u64), Error>| r is Ok),
            g == (|r: Result<(u64, u64), Error>| r->Ok_0),
            q == (|r: Result<(u64, u64), Error>| r is Err),
            succeeded@ == successes(all.take(it.index() as int)),
            failure is None ==> forall|j: int| 0 <= j < it.index() ==> !q(#[trigger] all[j]),
            failure matches Some(e) ==> {
                &&& 0 <= first < it.index()
                &&& all[first] == Err::<(u64, u64), Error>(e)
                &&& forall|j: int| 0 <= j < first ==> !q(#[trigger] all[j])
            },
    {
        let ghost i = it.index() as int;
        proof {
            let t = all.take(i);
            assert(all.take(i + 1) =~= t.push(all[i]));
            t.lemma_filter_push(all[i], p);
            assert(t.filter(p).push(all[i]).map_values(g) =~= t.filter(p).map_values(g).push(
                g(all[i]),
            ));
        }
        match x {
            Ok(entry) => {
                succeeded.push(entry);
            },
            Err(e) => {
                if failure.is_none() {
                    failure = Some(e);
                    proof {
                        first = i;
                    }
                }
            },
        }
    }
    proof {
        assert(all.take(all.len() as int) =~= all);
        if failure is Some {
            lists::lemma_is_first_index(all, q, first);
        } else {
            lists::lemma_no_first_index(all, q);
        }
    }
    InitResults { succeeded, failure }
}

/// A replica on another node.
#[derive(Debug, Clone, PartialEq, Eq)]
pub struct RemoteReplica {
    pub replica_id: u64,
    pub endpoint: String,
    pub voting: bool,
}

/// The peers of node number `i` among the first `n`: all others whose endpoint
/// is known.
pub open spec fn peers(
    succeeded: Seq<(u64, u64)>,
    endpoints: Seq<Option<String>>,
    i: int,
    n: int,
) -> Seq<RemoteReplica>
    decreases n,
{
    if n <= 0 {
        seq![]
    } else {
        let before = peers(succeeded, endpoints, i, n - 1);
        let j = n - 1;
        if j != i && j < endpoints.len() && endpoints[j] is Some {
            before.push(
                RemoteReplica {
                    replica_id: succeeded[j].1,
                    endpoint: endpoints[j]->0,
                    voting: true,
                },
            )
        } else {
            before
        }
    }
}

/// Every other node whose endpoint is known is among a node's peers.
pub proof fn lemma_all_peers_wired(
    succeeded: Seq<(u64, u64)>,
    endpoints: Seq<Option<String>>,
    i: int,
    n: int,
    j: int,
)
    requires
        0 <= j < n <= succeeded.len(),
        j != i,
        j < endpoints.len(),
        endpoints[j] is Some,
    ensures
        exists|k: int|
            0 <= k < peers(succeeded, endpoints, i, n).len() && #[trigger] peers(
                succeeded,
                endpoints,
                i,
                n,
            )[k] == (RemoteReplica {
                replica_id: succeeded[j].1,
                endpoint: endpoints[j]->0,
                voting: true,
            }),
    decreases n,
{
    let all = peers(succeeded, endpoints, i, n);
    let before = peers(succeeded, endpoints, i, n - 1);
    if j == n - 1 {
        assert(all[before.len() as int].endpoint == endpoints[j]->0);
    } else {
        lemma_all_peers_wired(succeeded, endpoints, i, n - 1, j);
        let k = choose|k: int|
            0 <= k < before.len() && #[trigger] before[k] == (RemoteReplica {
                replica_id: succeeded[j].1,
                endpoint: endpoints[j]->0,
                voting: true,
            });
        assert(all[k] == before[k]);
    }
}

/// The peers that node number `i` is told of.
pub fn remotes_of(
    succeeded: &Vec<(u64, u64)>,
    endpoints: &Vec<Option<String>>,
    i: usize,
) -> (r: Vec<RemoteReplica>)
    ensures
        r@ == peers(succeeded@, endpoints@, i as int, succeeded@.len() as int),
{
    let mut r: Vec<RemoteReplica> = Vec::new();
    let mut j: usize = 0;
    while j < succeeded.len()
        invariant
            j <= succeeded@.len(),
            r@ == peers(succeeded@, endpoints@, i as int, j as int),
        decreases succeeded@.len() - j,
    {
        if j != i && j < endpoints.len() {
            if let Some(e) = &endpoints[j] {
                r.push(
                    RemoteReplica {
                        replica_id: succeeded[j].1,
                        endpoint: e.clone(),
                        voting: true,
                    },
                );
            }
        }
        j = j + 1;
    }
    r
}

/// The nodes of the pairs.
pub open spec fn nodes_of(succeeded: Seq<(u64, u64)>) -> Seq<u64> {
    succeeded.map_values(|x: (u64, u64)| x.0)
}

/// The replicas of the pairs.
pub open spec fn replicas_of(succeeded: Seq<(u64, u64)>) -> Seq<ReplicaEntry> {
    succeeded.map_values(|x: (u64, u64)| ReplicaEntry { replica_id: x.1, node_id: x.0 })
}

/// Where the servers of the nodes are managed, those left out that have none.
pub open spec fn mgmt_urls(r: Registry, succeeded: Seq<(u64, u64)>) -> Seq<String> {
    succeeded.filter(|x: (u64, u64)| r.kv_index(x.0) is Some).map_values(
        |x: (u64, u64)| r.servers[r.kv_index(x.0)->0].url,
    )
}

/// The registry knows the store and the group with the replicas.
pub open spec fn group0_recorded(
    before: Registry,
    succeeded: Seq<(u64, u64)>,
    after: Registry,
) -> bool {
    &&& exists|ns: Seq<u64>| #[trigger]
        ordered::is_collected(nodes_of(succeeded), ns) && ordered::is_stable_sort(
            topology::with_store(before.stores, (StoreRecord { store_id: 0, nodes: ns })),
            after.stores,
        )
    &&& exists|rs: Seq<ReplicaEntry>| #[trigger]
        ordered::is_stable_sort(replicas_of(succeeded), rs) && ordered::is_stable_sort(
            topology::with_group(
                before.groups,
                (GroupRecord { store_id: 0, group_id: 0, replicas: rs }),
            ),
            after.groups,
        )
    &&& after == (Registry { stores: after.stores, groups: after.groups, ..before })
}

fn collect_urls(ctx: &OpContext, succeeded: &Vec<(u64, u64)>) -> (seeds: Vec<String>)
    ensures
        seeds@ == mgmt_urls(ctx.records(), succeeded@),
{
    let ghost reg = ctx.records();
    let ghost p = |x: (u64, u64)| reg.kv_index(x.0) is Some;
    let ghost g = |x: (u64, u64)| reg.servers[reg.kv_index(x.0)->0].url;
    let mut seeds: Vec<String> = Vec::new();
    let mut i: usize = 0;
    proof {
        reveal(Seq::filter);
        assert(seeds@ =~= mgmt_urls(reg, succeeded@.take(0)));
    }
    while i < succeeded.len()
        invariant
            i <= succeeded@.len(),
            reg == ctx.records(),
            p == (|x: (u64, u64)| reg.kv_index(x.0) is Some),
            g == (|x: (u64, u64)| reg.servers[reg.kv_index(x.0)->0].url),
            seeds@ == succeeded@.take(i as int).filter(p).map_values(g),
        decreases succeeded@.len() - i,
    {
        proof {
            let t = succeeded@.take(i as int);
            let x = succeeded@[i as int];
            assert(succeeded@.take(i + 1) =~= t.push(x));
            t.lemma_filter_push(x, p);
            assert(t.filter(p).push(x).map_values(g) =~= t.filter(p).map_values(g).push(g(x)));
        }
        match ctx.node_mgmt_url(succeeded[i].0) {
            Ok(url) => {
                seeds.push(url);
            },
            Err(_) => {},
        }
        i = i + 1;
    }
    assert(succeeded@.take(i as int) =~= succeeded@);
    seeds
}

/// Records the group, and tells the client where its nodes are managed.
pub fn record_init(ctx: &mut OpContext, succeeded: &Vec<(u64, u64)>)
    ensures
        group0_recorded(old(ctx).records(), succeeded@, final(ctx).records()),
        old(ctx).records().well_formed() ==> final(ctx).records().well_formed(),
        final(ctx).client.mgmt_seeds matches Some(s) && s@ == mgmt_urls(
            old(ctx).records(),
            succeeded@,
        ),
        final(ctx).client.group0_leader == old(ctx).client.group0_leader,
        final(ctx).pending == old(ctx).pending,
        final(ctx).discovery == old(ctx).discovery,
        final(ctx).test_scenario == old(ctx).test_scenario,
{
    let ghost before = ctx.records();
    let seeds = collect_urls(ctx, succeeded);
    let mut nodes: Vec<u64> = Vec::new();
    let mut replicas: Vec<ReplicaEntry> = Vec::new();
    let mut i: usize = 0;
    while i < succeeded.len()
        invariant
            i <= succeeded@.len(),
            nodes@ == nodes_of(succeeded@.take(i as int)),
            replicas@ == replicas_of(succeeded@.take(i as int)),
        decreases succeeded@.len() - i,
    {
        let (node_id, replica_id) = succeeded[i];
        nodes.push(node_id);
        replicas.push(ReplicaEntry { replica_id, node_id });
        assert(nodes@ =~= nodes_of(succeeded@.take(i + 1)));
        assert(replicas@ =~= replicas_of(succeeded@.take(i + 1)));
        i = i + 1;
    }
    assert(succeeded@.take(i as int) =~= succeeded@);
    ctx.registry.record_store(0, nodes);
    ctx.registry.record_group(0, 0, replicas);
    ctx.client.mgmt_seeds = Some(seeds);
}

/// A replica of a group as a server reports it.
#[derive(Debug, Clone, PartialEq, Eq)]
pub struct RemoteEndpoint {
    pub id: u64,
    pub endpoint: String,
}

/// A group as a server reports it. A leader of 0 is none.
#[derive(Debug, Clone, PartialEq, Eq)]
pub struct GroupTopology {
    pub group_id: u64,
    pub leader_id: u64,
    pub local_replica_id: u64,
    pub remotes: Vec<RemoteEndpoint>,
}

/// A store as a server reports it.
#[derive(Debug, Clone, PartialEq, Eq)]
pub struct StoreTopology {
    pub store_id: u64,
    pub listen_addr: Option<String>,
    pub groups: Vec<GroupTopology>,
}

/// An address that can be called: without scheme, and at this host where it
/// stands for all interfaces.
pub open spec fn callable(addr: Seq<char>) -> Seq<char> {
    let b = endpoint::without_scheme(addr);
    if "0.0.0.0:"@.is_prefix_of(b) {
        "127.0.0.1:"@ + b.skip("0.0.0.0:"@.len() as int)
    } else {
        b
    }
}

pub fn callable_address(addr: &str) -> (s: String)
    ensures
        s@ == callable(addr@),
{
    let b = strip_scheme(addr);
    match strip_prefix(b.as_str(), "0.0.0.0:") {
        Some(port) => {
            let mut s = "127.0.0.1:".to_owned();
            s.append(port.as_str());
            s
        },
        None => b,
    }
}

/// Where a store of a server is reached: the address of the first report of it
/// that has one.
pub fn rpc_endpoint_for_store(stores: &Vec<StoreTopology>, store_id: u64) -> (r: Option<String>)
    ensures
        match lists::first_index(
            stores@,
            |s: StoreTopology| s.store_id == store_id && s.listen_addr is Some,
        ) {
            Some(i) => r matches Some(e) && e@ == callable(stores@[i].listen_addr->0@),
            None => r is None,
        },
{
    let accepts = |s: &StoreTopology| -> (b: bool)
        ensures
            b == (s.store_id == store_id && s.listen_addr is Some)
    { s.store_id == store_id && s.listen_addr.is_some() };
    match lists::position(
        stores,
        accepts,
        Ghost(|s: StoreTopology| s.store_id == store_id && s.listen_addr is Some),
    ) {
        Some(i) => match &stores[i].listen_addr {
            Some(a) => Some(callable_address(a.as_str())),
            None => None,
        },
        None => None,
    }
}

/// A report of the metadata group that names a leader.
pub open spec fn led(g: GroupTopology) -> bool {
    g.group_id == 0 && g.leader_id > 0
}

/// Where the leader of a group is: the store's own address where it is the
/// local replica, else that of the remote replica.
pub open spec fn leader_address(s: StoreTopology, g: GroupTopology) -> Option<Seq<char>> {
    if g.leader_id == g.local_replica_id {
        match s.listen_addr {
            Some(a) => Some(a@),
            None => None,
        }
    } else {
        match lists::first_index(g.remotes@, |r: RemoteEndpoint| r.id == g.leader_id) {
            Some(i) => Some(g.remotes@[i].endpoint@),
            None => None,
        }
    }
}

/// Where the leader of the metadata group is by one store's report.
pub open spec fn store_leader(s: StoreTopology) -> Option<Seq<char>> {
    if s.store_id != 0 {
        None
    } else {
        match lists::first_index(s.groups@, |g: GroupTopology| led(g)) {
            Some(i) => match leader_address(s, s.groups@[i]) {
                Some(a) => Some(callable(a)),
                None => None,
            },
            None => None,
        }
    }
}

/// Where the leader of the metadata group is by all reports: the last one that
/// says so counts.
pub open spec fn reported_leader(stores: Seq<StoreTopology>) -> Option<Seq<char>>
    decreases stores.len(),
{
    if stores.len() == 0 {
        None
    } else {
        match store_leader(stores.last()) {
            Some(a) => Some(a),
            None => reported_leader(stores.drop_last()),
        }
    }
}

fn store_leader_text(s: &StoreTopology) -> (r: Option<String>)
    ensures
        match r {
            Some(t) => store_leader(*s) == Some(t@),
            None => store_leader(*s) is None,
        },
{
    if s.store_id != 0 {
        return None;
    }
    let accepts = |g: &GroupTopology| -> (b: bool)
        ensures
            b == led(*g)
    { g.group_id == 0 && g.leader_id > 0 };
    match lists::position(&s.groups, accepts, Ghost(|g: GroupTopology| led(g))) {
        Some(i) => {
            let g = &s.groups[i];
            if g.leader_id == g.local_replica_id {
                match &s.listen_addr {
                    Some(a) => Some(callable_address(a.as_str())),
                    None => None,
                }
            } else {
                let accepts = |r: &RemoteEndpoint| -> (b: bool)
                    ensures
                        b == (r.id == g.leader_id)
                { r.id == g.leader_id };
                match lists::position(
                    &g.remotes,
                    accepts,
                    Ghost(|r: RemoteEndpoint| r.id == g.leader_id),
                ) {
                    Some(j) => Some(callable_address(g.remotes[j].endpoint.as_str())),
                    None => None,
                }
            }
        },
        None => None,
    }
}

/// Where the leader of the metadata group is, by what a server reports.
pub fn leader_endpoint(stores: &Vec<StoreTopology>) -> (r: Option<String>)
    ensures
        match r {
            Some(t) => reported_leader(stores@) == Some(t@),
            None => reported_leader(stores@) is None,
        },
{
    let mut n: usize = stores.len();
    assert(stores@.take(n as int) =~= stores@);
    while n > 0
        invariant
            n <= stores@.len(),
            reported_leader(stores@) == reported_leader(stores@.take(n as int)),
        decreases n,
    {
        assert(stores@.take(n as int).last() == stores@[n - 1]);
        assert(stores@.take(n as int).drop_last() =~= stores@.take(n - 1));
        let found = store_leader_text(&stores[n - 1]);
        if found.is_some() {
            return found;
        }
        n = n - 1;
    }
    None
}

/// A server whose own replica leads the group.
pub open spec fn leads(stores: Seq<StoreTopology>, store_id: u64, group_id: u64) -> bool {
    exists|i: int, j: int|
        0 <= i < stores.len() && 0 <= j < stores[i].groups@.len() && is_own_leader(
            #[trigger] stores[i].groups@[j],
            stores[i].store_id,
            store_id,
            group_id,
        )
}

pub open spec fn is_own_leader(
    g: GroupTopology,
    of_store: u64,
    store_id: u64,
    group_id: u64,
) -> bool {
    of_store == store_id && g.group_id == group_id && g.leader_id > 0 && g.leader_id
        == g.local_replica_id
}

/// Whether a server's own replica leads the group, by what it reports.
pub fn hosts_leader(stores: &Vec<StoreTopology>, store_id: u64, group_id: u64) -> (r: bool)
    ensures
        r == leads(stores@, store_id, group_id),
{
    let mut i: usize = 0;
    while i < stores.len()
        invariant
            i <= stores@.len(),
            forall|a: int, b: int|
                0 <= a < i && 0 <= b < stores@[a].groups@.len() ==> !is_own_leader(
                    #[trigger] stores@[a].groups@[b],
                    stores@[a].store_id,
                    store_id,
                    group_id,
                ),
        decreases stores@.len() - i,
    {
        let mut j: usize = 0;
        while j < stores[i].groups.len()
            invariant
                i < stores@.len(),
                j <= stores@[i as int].groups@.len(),
                forall|b: int|
                    0 <= b < j ==> !is_own_leader(
                        #[trigger] stores@[i as int].groups@[b],
                        stores@[i as int].store_id,
                        store_id,
                        group_id,
                    ),
            decreases stores@[i as int].groups@.len() - j,
        {
            let g = &stores[i].groups[j];
            if stores[i].store_id == store_id && g.group_id == group_id && g.leader_id > 0
                && g.leader_id == g.local_replica_id {
                assert(is_own_leader(
                    stores@[i as int].groups@[j as int],
                    stores@[i as int].store_id,
                    store_id,
                    group_id,
                ));
                return true;
            }
            j = j + 1;
        }
        i = i + 1;
    }
    false
}

/// The first endpoint that is known.
pub open spec fn first_endpoint(endpoints: Seq<Option<String>>) -> Option<Seq<char>> {
    match lists::first_index(endpoints, |e: Option<String>| e is Some) {
        Some(i) => Some(endpoints[i]->0@),
        None => None,
    }
}

/// The leader that the client is told after the group was brought up: the
/// first endpoint that is known of the nodes, where there is but one node;
/// else what a leading server reports, if one does.
pub fn leader_after_init(
    single_node: bool,
    endpoints: &Vec<Option<String>>,
    report: Option<&Vec<StoreTopology>>,
) -> (r: Option<String>)
    ensures
        if single_node {
            match r {
                Some(t) => first_endpoint(endpoints@) == Some(t@),
                None => first_endpoint(endpoints@) is None,
            }
        } else {
            match report {
                Some(stores) => match r {
                    Some(t) => reported_leader(stores@) == Some(t@),
                    None => reported_leader(stores@) is None,
                },
                None => r is None,
            }
        },
{
    if single_node {
        let accepts = |e: &Option<String>| -> (b: bool)
            ensures
                b == (*e is Some)
        { e.is_some() };
        match lists::position(endpoints, accepts, Ghost(|e: Option<String>| e is Some)) {
            Some(i) => clone_text(&endpoints[i]),
            None => None,
        }
    } else {
        match report {
            Some(stores) => leader_endpoint(stores),
            None => None,
        }
    }
}

/// The endpoint that a node's replica is recorded with: where its server is
/// called, or nothing.
pub open spec fn replica_endpoint(r: Registry, node_id: u64) -> Seq<char> {
    match r.kv_index(node_id) {
        Some(i) => match r.servers[i].rpc_url {
            Some(u) => u@,
            None => Seq::empty(),
        },
        None => Seq::empty(),
    }
}

/// The write that records a node's replica of the metadata group.
pub open spec fn is_replica_write(w: ClusterWrite, r: Registry, x: (u64, u64)) -> bool {
    w matches ClusterWrite::AddReplica { store_id, group_id, replica_id, node_id, endpoint }
        && store_id == 0 && group_id == 0 && replica_id == x.1 && node_id == x.0 && endpoint@
        == replica_endpoint(r, x.0)
}

/// The writes that put the registry's hardware and the metadata group down:
/// the racks, the nodes, the store, the group and its replicas.
pub open spec fn is_topology(
    ws: Seq<ClusterWrite>,
    r: Registry,
    store_nodes: Seq<u64>,
    succeeded: Seq<(u64, u64)>,
) -> bool {
    let a = r.racks.len() as int;
    let b = a + r.nodes.len();
    &&& ws.len() == b + 2 + succeeded.len()
    &&& forall|i: int|
        0 <= i < a ==> #[trigger] ws[i] == (ClusterWrite::AddRack { rack_id: r.racks[i].id })
    &&& forall|i: int|
        a <= i < b ==> #[trigger] ws[i] == (ClusterWrite::AddNode {
            rack_id: r.nodes[i - a].rack_id,
            node_id: r.nodes[i - a].id,
        })
    &&& ws[b] matches ClusterWrite::AddStore { store_id, node_ids } && store_id == 0 && node_ids@
        == store_nodes
    &&& ws[b + 1] == (ClusterWrite::AddGroup { store_id: 0, group_id: 0 })
    &&& forall|i: int|
        b + 2 <= i < ws.len() ==> is_replica_write(#[trigger] ws[i], r, succeeded[i - b - 2])
}

/// The writes that put the registry's hardware and the metadata group down.
pub fn write_topology_to_sysdata(
    ctx: &OpContext,
    store_nodes: &Vec<u64>,
    succeeded: &Vec<(u64, u64)>,
) -> (ws: Vec<ClusterWrite>)
    ensures
        is_topology(ws@, ctx.records(), store_nodes@, succeeded@),
{
    let ghost reg = ctx.records();
    let mut ws: Vec<ClusterWrite> = Vec::new();
    let racks = &ctx.registry.racks;
    let nodes = &ctx.registry.nodes;
    let ghost a = racks@.len() as int;
    let ghost b = a + nodes@.len();
    let mut i: usize = 0;
    while i < racks.len()
        invariant
            i <= racks@.len(),
            ws@.len() == i,
            forall|j: int|
                0 <= j < i ==> #[trigger] ws@[j] == (ClusterWrite::AddRack {
                    rack_id: racks@[j].id,
                }),
        decreases racks@.len() - i,
    {
        ws.push(ClusterWrite::AddRack { rack_id: racks[i].id });
        i = i + 1;
    }
    let mut k: usize = 0;
    while k < nodes.len()
        invariant
            a == racks@.len(),
            k <= nodes@.len(),
            ws@.len() == a + k,
            forall|j: int|
                0 <= j < a ==> #[trigger] ws@[j] == (ClusterWrite::AddRack {
                    rack_id: racks@[j].id,
                }),
            forall|j: int|
                a <= j < a + k ==> #[trigger] ws@[j] == (ClusterWrite::AddNode {
                    rack_id: nodes@[j - a].rack_id,
                    node_id: nodes@[j - a].id,
                }),
        decreases nodes@.len() - k,
    {
        ws.push(ClusterWrite::AddNode { rack_id: nodes[k].rack_id, node_id: nodes[k].id });
        k = k + 1;
    }
    let copy = store_nodes.clone();
    assert(copy@ =~= store_nodes@);
    ws.push(ClusterWrite::AddStore { store_id: 0, node_ids: copy });
    ws.push(ClusterWrite::AddGroup { store_id: 0, group_id: 0 });
    let ghost head = ws@;
    let mut m: usize = 0;
    while m < succeeded.len()
        invariant
            m <= succeeded@.len(),
            reg == ctx.records(),
            head.len() == b + 2,
            ws@.len() == b + 2 + m,
            forall|j: int| 0 <= j < b + 2 ==> #[trigger] ws@[j] == head[j],
            forall|j: int|
                b + 2 <= j < b + 2 + m ==> is_replica_write(
                    #[trigger] ws@[j],
                    reg,
                    succeeded@[j - b - 2],
                ),
        decreases succeeded@.len() - m,
    {
        let (node_id, replica_id) = succeeded[m];
        let endpoint = match ctx.registry.server_for_node(node_id) {
            Some(s) => match &s.rpc_url {
                Some(u) => u.clone(),
                None => String::new(),
            },
            None => String::new(),
        };
        assert(endpoint@ =~= replica_endpoint(reg, node_id));
        ws.push(
            ClusterWrite::AddReplica { store_id: 0, group_id: 0, replica_id, node_id, endpoint },
        );
        m = m + 1;
    }
    ws
}

/// A node that answers with the status 409 has its replica already; no other
/// failure says so.
pub proof fn lemma_already_initialized(node_id: String, status: String, a: Seq<char>, b: Seq<char>, e: Error)
    ensures
        status@ == a + "409"@ + b ==> already_initialized(Error::UpstreamRpc { node_id, status }),
        already_initialized(Error::UpstreamRpc { node_id, status }) ==> exists|i: int| #[trigger]
            text::occurs_at(status@, "409"@, i),
        !(e is UpstreamRpc) ==> !already_initialized(e),
{
    text::lemma_first_occurrence(status@, "409"@, 0);
    if status@ == a + "409"@ + b {
        reveal_strlit("409");
        text::lemma_occurrence(a, "409"@, b);
        text::lemma_occurrence_found(status@, "409"@, 0, a.len() as int);
    }
}

/// The successes are the pairs of the results that succeeded, in their order.
pub proof fn lemma_successes_in_order(
    results: Seq<Result<(u64, u64), Error>>,
    pair: (u64, u64),
    e: Error,
)
    ensures
        successes(Seq::empty()).len() == 0,
        successes(results.push(Ok(pair))) == successes(results).push(pair),
        successes(results.push(Err(e))) == successes(results),
{
    reveal(Seq::filter);
    assert(results.push(Ok(pair)).drop_last() =~= results);
    assert(results.push(Err(e)).drop_last() =~= results);
    assert(successes(results.push(Ok(pair))) =~= successes(results).push(pair));
    assert(successes(results.push(Err(e))) =~= successes(results));
}

/// Where every node succeeded, the successes are all the results, one by one.
pub proof fn lemma_all_succeeded(results: Seq<Result<(u64, u64), Error>>)
    requires
        forall|k: int| 0 <= k < results.len() ==> (#[trigger] results[k]) is Ok,
    ensures
        successes(results).len() == results.len(),
        forall|k: int|
            0 <= k < results.len() ==> #[trigger] successes(results)[k] == results[k]->Ok_0,
    decreases results.len(),
{
    if results.len() > 0 {
        let earlier = results.drop_last();
        assert forall|k: int| 0 <= k < earlier.len() implies (#[trigger] earlier[k]) is Ok by {
            assert(earlier[k] == results[k]);
        }
        lemma_all_succeeded(earlier);
        assert(results.last() is Ok);
        let pair = results.last()->Ok_0;
        assert(results =~= earlier.push(Ok(pair)));
        lemma_successes_in_order(earlier, pair, Error::Io(arbitrary()));
    }
}

/// A node's peers are replicas that vote, of other nodes and at their own
/// endpoints; a node is not its own peer, nor is one whose endpoint is unknown.
pub proof fn lemma_peers_are_others(
    succeeded: Seq<(u64, u64)>,
    endpoints: Seq<Option<String>>,
    i: int,
    n: int,
    k: int,
)
    requires
        0 <= n <= succeeded.len(),
        0 <= k < peers(succeeded, endpoints, i, n).len(),
    ensures
        exists|j: int|
            {
                &&& 0 <= j < n
                &&& j != i
                &&& j < endpoints.len()
                &&& endpoints[j] is Some
                &&& peers(succeeded, endpoints, i, n)[k].replica_id == (#[trigger] succeeded[j]).1
                &&& peers(succeeded, endpoints, i, n)[k].endpoint == endpoints[j]->0
                &&& peers(succeeded, endpoints, i, n)[k].voting
            },
    decreases n,
{
    if n > 0 {
        let before = peers(succeeded, endpoints, i, n - 1);
        if k < before.len() {
            lemma_peers_are_others(succeeded, endpoints, i, n - 1, k);
            let j = choose|j: int|
                {
                    &&& 0 <= j < n - 1
                    &&& j != i
                    &&& j < endpoints.len()
                    &&& endpoints[j] is Some
                    &&& before[k].replica_id == (#[trigger] succeeded[j]).1
                    &&& before[k].endpoint == endpoints[j]->0
                    &&& before[k].voting
                };
            assert(peers(succeeded, endpoints, i, n)[k] == before[k]);
            assert(succeeded[j].1 == before[k].replica_id);
        } else {
            assert(peers(succeeded, endpoints, i, n)[k].replica_id == succeeded[n - 1].1);
        }
    }
}

/// Of each pair the first is the node and the second its replica.
pub proof fn lemma_nodes_and_replicas(succeeded: Seq<(u64, u64)>, i: int)
    requires
        0 <= i < succeeded.len(),
    ensures
        nodes_of(succeeded).len() == succeeded.len(),
        nodes_of(succeeded)[i] == succeeded[i].0,
        replicas_of(succeeded).len() == succeeded.len(),
        replicas_of(succeeded)[i].node_id == succeeded[i].0,
        replicas_of(succeeded)[i].replica_id == succeeded[i].1,
{
}

/// The servers of the nodes are managed at their own addresses, in the order of
/// the nodes; a node without a server is left out.
pub proof fn lemma_mgmt_urls_in_order(r: Registry, succeeded: Seq<(u64, u64)>, pair: (u64, u64))
    ensures
        mgmt_urls(r, Seq::empty()).len() == 0,
        r.kv_index(pair.0) matches Some(i) ==> mgmt_urls(r, succeeded.push(pair)) == mgmt_urls(
            r,
            succeeded,
        ).push(r.servers[i].url),
        r.kv_index(pair.0) is None ==> mgmt_urls(r, succeeded.push(pair)) == mgmt_urls(r, succeeded),
{
    reveal(Seq::filter);
    assert(succeeded.push(pair).drop_last() =~= succeeded);
    if r.kv_index(pair.0) is Some {
        assert(mgmt_urls(r, succeeded.push(pair)) =~= mgmt_urls(r, succeeded).push(
            r.servers[r.kv_index(pair.0)->0].url,
        ));
    }
}

/// Once the metadata group is recorded, store 0 lists every node that takes
/// part and group 0 its replica on that node. Racks, nodes, servers and disks
/// stay as they were.
pub proof fn lemma_group0_recorded(
    before: Registry,
    succeeded: Seq<(u64, u64)>,
    after: Registry,
    k: int,
)
    requires
        group0_recorded(before, succeeded, after),
        ordered::unique_keys(before.stores),
        ordered::unique_keys(before.groups),
        0 <= k < succeeded.len(),
    ensures
        after.store_index(0) matches Some(i) && after.stores[i].store_id == 0
            && after.stores[i].nodes.contains(succeeded[k].0),
        after.group_index(0, 0) matches Some(i) && after.groups[i].store_id == 0
            && after.groups[i].group_id == 0 && after.groups[i].replicas.len() == succeeded.len()
            && after.groups[i].replicas.contains(
            ReplicaEntry { replica_id: succeeded[k].1, node_id: succeeded[k].0 },
        ),
        after.racks == before.racks,
        after.nodes == before.nodes,
        after.servers == before.servers,
        after.disk_groups == before.disk_groups,
        after.disks == before.disks,
{
    let ns = choose|ns: Seq<u64>| #[trigger]
        ordered::is_collected(nodes_of(succeeded), ns) && ordered::is_stable_sort(
            topology::with_store(before.stores, (StoreRecord { store_id: 0, nodes: ns })),
            after.stores,
        );
    let rs = choose|rs: Seq<ReplicaEntry>| #[trigger]
        ordered::is_stable_sort(replicas_of(succeeded), rs) && ordered::is_stable_sort(
            topology::with_group(
                before.groups,
                (GroupRecord { store_id: 0, group_id: 0, replicas: rs }),
            ),
            after.groups,
        );
    topology::lemma_recorded_store_found(before, StoreRecord { store_id: 0, nodes: ns }, after);
    topology::lemma_recorded_group_found(
        before,
        GroupRecord { store_id: 0, group_id: 0, replicas: rs },
        after,
    );
    let nodes = nodes_of(succeeded);
    assert(nodes[k] == succeeded[k].0);
    ordered::lemma_with_key_contains(nodes, nodes[k]);
    let key = nodes[k].key();
    let same = ordered::with_key(nodes, key);
    assert(ordered::with_key(ns, key) == ordered::last_only(same));
    assert(same.contains(nodes[k]));
    assert(same.len() > 0);
    let x = same.last();
    assert(same[same.len() - 1] == x);
    assert(same.contains(x));
    assert(x.key() == key) by {
        broadcast use vstd::seq_lib::group_filter_ensures;

    }
    assert(x.key()[0] == x as int && key[0] == nodes[k] as int);
    assert(x == nodes[k]);
    let kept = ordered::with_key(ns, key);
    assert(kept[0] == x);
    assert(kept.contains(x));
    ordered::lemma_with_key_contains(ns, x);
    ordered::lemma_stable_sort_entries(replicas_of(succeeded), rs);
    ordered::lemma_stable_sort_len(replicas_of(succeeded), rs);
    assert(replicas_of(succeeded)[k] == (ReplicaEntry {
        replica_id: succeeded[k].1,
        node_id: succeeded[k].0,
    }));
    assert(replicas_of(succeeded).contains(replicas_of(succeeded)[k]));
}

/// An address that stands for all interfaces is called at this host and the same
/// port; any other is called as it is, without its scheme.
pub proof fn lemma_callable(rest: Seq<char>, addr: Seq<char>)
    ensures
        callable("0.0.0.0:"@ + rest) == "127.0.0.1:"@ + rest,
        callable("http://"@ + ("0.0.0.0:"@ + rest)) == "127.0.0.1:"@ + rest,
        callable("https://"@ + ("0.0.0.0:"@ + rest)) == "127.0.0.1:"@ + rest,
        !("0.0.0.0:"@.is_prefix_of(endpoint::without_scheme(addr))) ==> callable(addr)
            == endpoint::without_scheme(addr),
{
    reveal_strlit("0.0.0.0:");
    reveal_strlit("http://");
    reveal_strlit("https://");
    let b = "0.0.0.0:"@ + rest;
    endpoint::lemma_scheme_on_and_off(b);
    assert(b[0] == '0');
    assert("http://"@[0] == 'h' && "https://"@[0] == 'h');
    assert("0.0.0.0:"@ =~= b.subrange(0, 8));
    assert(b.skip(8) =~= rest);
    assert(!("http://"@.is_prefix_of(b)));
    assert(!("https://"@.is_prefix_of(b)));
}

/// The leader of a group is at the store's own address where the local replica
/// leads, and else at the endpoint of the remote replica that leads.
pub proof fn lemma_leader_addresses(s: StoreTopology, g: GroupTopology, i: int)
    ensures
        led(g) <==> g.group_id == 0 && g.leader_id != 0,
        g.leader_id == g.local_replica_id && s.listen_addr is Some ==> leader_address(s, g) == Some(
            s.listen_addr->0@,
        ),
        g.leader_id == g.local_replica_id && s.listen_addr is None ==> leader_address(s, g) is None,
        g.leader_id != g.local_replica_id && 0 <= i < g.remotes@.len() && g.remotes@[i].id
            == g.leader_id && (forall|j: int|
            0 <= j < i ==> (#[trigger] g.remotes@[j]).id != g.leader_id) ==> leader_address(s, g)
            == Some(g.remotes@[i].endpoint@),
        g.leader_id != g.local_replica_id && (forall|j: int|
            0 <= j < g.remotes@.len() ==> (#[trigger] g.remotes@[j]).id != g.leader_id)
            ==> leader_address(s, g) is None,
{
    let p = |r: RemoteEndpoint| r.id == g.leader_id;
    lists::lemma_first_index(g.remotes@, p);
    match lists::first_index(g.remotes@, p) {
        Some(k) => {
            assert(p(g.remotes@[k]));
            if 0 <= i < k {
                assert(!p(g.remotes@[i]));
            }
        },
        None => {
            if 0 <= i < g.remotes@.len() {
                assert(!p(g.remotes@[i]));
            }
        },
    }
}

/// Only store 0 tells of the metadata group's leader, by its first group 0 that
/// has one.
pub proof fn lemma_store_leaders(s: StoreTopology, i: int)
    ensures
        s.store_id != 0 ==> store_leader(s) is None,
        (forall|j: int| 0 <= j < s.groups@.len() ==> !led(#[trigger] s.groups@[j]))
            ==> store_leader(s) is None,
        s.store_id == 0 && 0 <= i < s.groups@.len() && led(s.groups@[i]) && (forall|j: int|
            0 <= j < i ==> !led(#[trigger] s.groups@[j])) ==> match leader_address(
            s,
            s.groups@[i],
        ) {
            Some(a) => store_leader(s) == Some(callable(a)),
            None => store_leader(s) is None,
        },
{
    let p = |g: GroupTopology| led(g);
    lists::lemma_first_index(s.groups@, p);
    match lists::first_index(s.groups@, p) {
        Some(k) => {
            assert(p(s.groups@[k]));
            if 0 <= i < k {
                assert(!p(s.groups@[i]));
            }
        },
        None => {
            if 0 <= i < s.groups@.len() {
                assert(!p(s.groups@[i]));
            }
        },
    }
}

/// Of several reports the last that names a leader counts.
pub proof fn lemma_last_report_counts(stores: Seq<StoreTopology>, s: StoreTopology)
    ensures
        reported_leader(Seq::empty()) is None,
        store_leader(s) is Some ==> reported_leader(stores.push(s)) == store_leader(s),
        store_leader(s) is None ==> reported_leader(stores.push(s)) == reported_leader(stores),
{
    assert(stores.push(s).drop_last() =~= stores);
}

/// A server leads a group where one of its stores reports its own replica of
/// that group as the leader.
pub proof fn lemma_leads(stores: Seq<StoreTopology>, store_id: u64, group_id: u64, i: int, j: int)
    ensures
        0 <= i < stores.len() && 0 <= j < stores[i].groups@.len() && stores[i].store_id == store_id
            && stores[i].groups@[j].group_id == group_id && stores[i].groups@[j].leader_id != 0
            && stores[i].groups@[j].leader_id == stores[i].groups@[j].local_replica_id ==> leads(
            stores,
            store_id,
            group_id,
        ),
        leads(stores, store_id, group_id) ==> exists|a: int, b: int|
            0 <= a < stores.len() && 0 <= b < stores[a].groups@.len() && stores[a].store_id
                == store_id && (#[trigger] stores[a].groups@[b]).group_id == group_id
                && stores[a].groups@[b].leader_id != 0 && stores[a].groups@[b].leader_id
                == stores[a].groups@[b].local_replica_id,
{
    if 0 <= i < stores.len() && 0 <= j < stores[i].groups@.len() {
        assert(is_own_leader(stores[i].groups@[j], stores[i].store_id, store_id, group_id)
            == is_own_leader(stores[i].groups@[j], stores[i].store_id, store_id, group_id));
    }
    if leads(stores, store_id, group_id) {
        let (a, b) = choose|a: int, b: int|
            0 <= a < stores.len() && 0 <= b < stores[a].groups@.len() && is_own_leader(
                #[trigger] stores[a].groups@[b],
                stores[a].store_id,
                store_id,
                group_id,
            );
        assert(stores[a].groups@[b].group_id == group_id);
    }
}

/// The first endpoint that is known is taken.
pub proof fn lemma_first_endpoint(endpoints: Seq<Option<String>>, i: int)
    ensures
        0 <= i < endpoints.len() && endpoints[i] is Some && (forall|j: int|
            0 <= j < i ==> (#[trigger] endpoints[j]) is None) ==> first_endpoint(endpoints) == Some(
            endpoints[i]->0@,
        ),
        (forall|j: int| 0 <= j < endpoints.len() ==> (#[trigger] endpoints[j]) is None)
            ==> first_endpoint(endpoints) is None,
{
    let p = |e: Option<String>| e is Some;
    lists::lemma_first_index(endpoints, p);
    match lists::first_index(endpoints, p) {
        Some(k) => {
            assert(p(endpoints[k]));
            if 0 <= i < k {
                assert(!p(endpoints[i]));
            }
        },
        None => {
            if 0 <= i < endpoints.len() {
                assert(!p(endpoints[i]));
            }
        },
    }
}

/// A node's replica is recorded where its server is called, and without an
/// endpoint where that is not known.
pub proof fn lemma_replica_endpoints(r: Registry, node_id: u64)
    ensures
        r.kv_index(node_id) matches Some(i) && r.servers[i].rpc_url is Some ==> replica_endpoint(
            r,
            node_id,
        ) == r.servers[r.kv_index(node_id)->0].rpc_url->0@,
        r.kv_index(node_id) is None ==> replica_endpoint(r, node_id).len() == 0,
        r.kv_index(node_id) is Some && r.servers[r.kv_index(node_id)->0].rpc_url is None
            ==> replica_endpoint(r, node_id).len() == 0,
{
}

/// The topology is written in order: every rack, every node in its rack, store
/// 0 with its nodes, its group 0, and every replica with its node and endpoint.
pub proof fn lemma_topology_written(
    ws: Seq<ClusterWrite>,
    r: Registry,
    store_nodes: Seq<u64>,
    succeeded: Seq<(u64, u64)>,
    i: int,
)
    requires
        is_topology(ws, r, store_nodes, succeeded),
    ensures
        ws.len() == r.racks.len() + r.nodes.len() + 2 + succeeded.len(),
        0 <= i < r.racks.len() ==> ws[i] == (ClusterWrite::AddRack { rack_id: r.racks[i].id }),
        0 <= i < r.nodes.len() ==> ws[r.racks.len() + i] == (ClusterWrite::AddNode {
            rack_id: r.nodes[i].rack_id,
            node_id: r.nodes[i].id,
        }),
        ws[(r.racks.len() + r.nodes.len()) as int] matches ClusterWrite::AddStore {
            store_id,
            node_ids,
        } && store_id == 0 && node_ids@ == store_nodes,
        ws[r.racks.len() + r.nodes.len() + 1int] == (ClusterWrite::AddGroup {
            store_id: 0,
            group_id: 0,
        }),
        0 <= i < succeeded.len() ==> (ws[r.racks.len() + r.nodes.len() + 2int + i] matches ClusterWrite::AddReplica {
            store_id,
            group_id,
            replica_id,
            node_id,
            endpoint,
        } && store_id == 0 && group_id == 0 && replica_id == succeeded[i].1 && node_id
            == succeeded[i].0 && endpoint@ == replica_endpoint(r, succeeded[i].0)),
{
    let b = r.racks.len() + r.nodes.len();
    if 0 <= i < succeeded.len() {
        assert(is_replica_write(ws[b + 2int + i], r, succeeded[i]));
    }
}

} // verus!

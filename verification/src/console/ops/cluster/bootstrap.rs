//! The order in which the metadata group is brought up.

use vstd::prelude::*;

use crate::console::error::Error;
use crate::console::ops::cluster::init::{
    collect_init, leader_after_init, record_init, remotes_of, write_topology_to_sysdata, InitTarget,
    RemoteReplica, StoreTopology,
};
#[allow(unused_imports)]
use crate::console::ops::cluster::init;
use crate::console::ops::cluster::{ClusterWrite, InitSummary};
use crate::console::ops::context::OpContext;
#[allow(unused_imports)]
use crate::lists;

verus! {

/// The peers that a node is told of.
#[derive(Debug, Clone, PartialEq, Eq)]
pub struct Wiring {
    pub node_id: u64,
    pub remotes: Vec<RemoteReplica>,
}

/// What the first `n` nodes are told of their peers. A node without peers is
/// told nothing.
pub open spec fn wirings(
    succeeded: Seq<(u64, u64)>,
    endpoints: Seq<Option<String>>,
    n: int,
) -> Seq<(u64, Seq<RemoteReplica>)>
    decreases n,
{
    if n <= 0 {
        seq![]
    } else {
        let before = wirings(succeeded, endpoints, n - 1);
        let remotes = init::peers(succeeded, endpoints, n - 1, succeeded.len() as int);
        if remotes.len() == 0 {
            before
        } else {
            before.push((succeeded[n - 1].0, remotes))
        }
    }
}

/// What the wirings say.
pub open spec fn wired(ws: Seq<Wiring>) -> Seq<(u64, Seq<RemoteReplica>)> {
    ws.map_values(|w: Wiring| (w.node_id, w.remotes@))
}

fn all_wirings(succeeded: &Vec<(u64, u64)>, endpoints: &Vec<Option<String>>) -> (ws: Vec<Wiring>)
    ensures
        wired(ws@) == wirings(succeeded@, endpoints@, succeeded@.len() as int),
{
    let mut ws: Vec<Wiring> = Vec::new();
    let mut i: usize = 0;
    assert(wired(ws@) =~= wirings(succeeded@, endpoints@, 0));
    while i < succeeded.len()
        invariant
            i <= succeeded@.len(),
            wired(ws@) == wirings(succeeded@, endpoints@, i as int),
        decreases succeeded@.len() - i,
    {
        let remotes = remotes_of(succeeded, endpoints, i);
        if remotes.len() > 0 {
            let w = Wiring { node_id: succeeded[i].0, remotes };
            assert(wired(ws@.push(w)) =~= wired(ws@).push((w.node_id, w.remotes@)));
            ws.push(w);
        }
        i = i + 1;
    }
    ws
}

/// How far the group has come up.
#[derive(Debug, Clone, Copy, PartialEq, Eq, Structural)]
pub enum InitPhase {
    /// The nodes are asked to take part.
    Asking,
    /// The nodes' endpoints are looked for.
    Finding,
    /// The nodes are told of their peers.
    Wiring,
    /// The leader is looked for.
    Leading,
    /// The topology is written.
    Writing,
    /// The group is up, or was given up.
    Over,
}

/// What is done next.
#[derive(Debug, Clone, PartialEq, Eq)]
pub enum InitAction {
    /// Take the group off the nodes again, and fail.
    RollBack { node_ids: Vec<u64>, error: Error },
    /// Find out where the nodes' stores are reached.
    FindEndpoints(Vec<u64>),
    /// Tell the nodes of their peers.
    Wire(Vec<Wiring>),
    /// Wait until one of the servers leads the group, and ask it for a report.
    AwaitLeader(Vec<String>),
    /// Write the topology. A write that fails is passed over.
    Write(Vec<ClusterWrite>),
    Finished(InitSummary),
}

/// What came of it.
#[derive(Debug, PartialEq, Eq)]
pub enum InitReply {
    /// What came of asking each node.
    Outcomes(Vec<Result<(u64, u64), Error>>),
    /// Where the nodes' stores are reached, as far as that is known.
    Endpoints(Vec<Option<String>>),
    /// The leader's report, if there was a leader in time.
    Report(Option<Vec<StoreTopology>>),
    Done,
}

/// The metadata group while it is brought up.
#[derive(Debug, Clone, PartialEq, Eq)]
pub struct InitFlow {
    pub single_node: bool,
    /// The nodes that take part, and their replicas.
    pub succeeded: Vec<(u64, u64)>,
    pub phase: InitPhase,
}

/// How many phases are left.
pub open spec fn phases_left(p: InitPhase) -> nat {
    match p {
        InitPhase::Asking => 5,
        InitPhase::Finding => 4,
        InitPhase::Wiring => 3,
        InitPhase::Leading => 2,
        InitPhase::Writing => 1,
        InitPhase::Over => 0,
    }
}

/// The group is recorded, and the client knows where its nodes are managed.
pub open spec fn recorded(before: OpContext, succeeded: Seq<(u64, u64)>, after: OpContext) -> bool {
    &&& init::group0_recorded(before.records(), succeeded, after.records())
    &&& before.records().well_formed() ==> after.records().well_formed()
    &&& after.client.mgmt_seeds matches Some(s) && s@ == init::mgmt_urls(
        before.records(),
        succeeded,
    )
    &&& after.client.group0_leader == before.client.group0_leader
    &&& after.pending == before.pending
    &&& after.discovery == before.discovery
    &&& after.test_scenario == before.test_scenario
}

/// Where the leader is by the reply: the first endpoint, or what the leader
/// reports.
pub open spec fn leader_by(reply: InitReply) -> Option<Seq<char>> {
    match reply {
        InitReply::Endpoints(es) => init::first_endpoint(es@),
        InitReply::Report(Some(stores)) => init::reported_leader(stores@),
        _ => None,
    }
}

/// The client was told the leader, if there is one.
pub open spec fn leader_told(before: OpContext, leader: Option<Seq<char>>, after: OpContext) -> bool {
    &&& after.registry == before.registry
    &&& after.client.mgmt_seeds == before.client.mgmt_seeds
    &&& match leader {
        Some(l) => after.client.group0_leader matches Some(t) && t@ == l,
        None => after.client.group0_leader == before.client.group0_leader,
    }
    &&& after.pending == before.pending
    &&& after.discovery == before.discovery
    &&& after.test_scenario == before.test_scenario
}

impl InitFlow {
    /// The reply belongs to the action of this phase.
    pub open spec fn fits(self, reply: InitReply) -> bool {
        match self.phase {
            InitPhase::Asking => reply is Outcomes,
            InitPhase::Finding => reply is Endpoints,
            InitPhase::Wiring => reply is Done,
            InitPhase::Leading => if self.single_node {
                reply is Endpoints
            } else {
                reply is Report
            },
            InitPhase::Writing => reply is Done,
            InitPhase::Over => false,
        }
    }

    /// Begins with asking the nodes. Refuses a group without nodes.
    pub fn start(nodes: &Vec<u64>) -> (r: Result<(InitFlow, Vec<InitTarget>), Error>)
        ensures
            match r {
                Ok((f, t)) => {
                    &&& nodes@.len() > 0
                    &&& t@.len() == init::first_occurrences(nodes@).len()
                    &&& forall|i: int|
                        0 <= i < t@.len() ==> #[trigger] t@[i] == (InitTarget {
                            node_id: init::first_occurrences(nodes@)[i],
                            replica_id: (1 + i) as u64,
                            start_election: t@.len() == 1,
                        })
                    &&& f.single_node == (t@.len() == 1)
                    &&& f.succeeded@ == Seq::<(u64, u64)>::empty()
                    &&& f.phase == InitPhase::Asking
                },
                Err(e) => nodes@.len() == 0 && e.is_validation(
                    "nodes"@,
                    "nodes list must not be empty"@,
                ),
            },
    {
        match init::init(nodes) {
            Ok(targets) => {
                let single_node = targets.len() == 1;
                Ok(
                    (
                        InitFlow { single_node, succeeded: Vec::new(), phase: InitPhase::Asking },
                        targets,
                    ),
                )
            },
            Err(e) => Err(e),
        }
    }

    /// What a reply leads to. Where a node could not be won, nothing is
    /// recorded, and the group is taken off the others. Else the nodes are
    /// told of their peers, the group is recorded, the client is told the
    /// leader, and the topology is written, in that order.
    pub open spec fn stepped(
        self,
        c: OpContext,
        reply: InitReply,
        after: Self,
        d: OpContext,
        action: InitAction,
    ) -> bool {
        match (self.phase, reply) {
            (InitPhase::Asking, InitReply::Outcomes(results)) => match lists::first_index(
                results@,
                |r: Result<(u64, u64), Error>| r is Err,
            ) {
                Some(i) => {
                    &&& d == c
                    &&& after.phase == InitPhase::Over
                    &&& action matches InitAction::RollBack { node_ids, error } && node_ids@
                        == init::nodes_of(init::successes(results@)) && error == results@[i]->Err_0
                },
                None => {
                    &&& after.succeeded@ == init::successes(results@)
                    &&& action matches InitAction::FindEndpoints(ids) && ids@ == init::nodes_of(
                        after.succeeded@,
                    )
                    &&& if self.single_node {
                        after.phase == InitPhase::Leading && recorded(c, after.succeeded@, d)
                    } else {
                        after.phase == InitPhase::Finding && d == c
                    }
                },
            },
            (InitPhase::Finding, InitReply::Endpoints(es)) => {
                &&& d == c
                &&& after.succeeded == self.succeeded
                &&& after.phase == InitPhase::Wiring
                &&& action matches InitAction::Wire(ws) && wired(ws@) == wirings(
                    self.succeeded@,
                    es@,
                    self.succeeded@.len() as int,
                )
            },
            (InitPhase::Wiring, InitReply::Done) => {
                &&& recorded(c, self.succeeded@, d)
                &&& after.succeeded == self.succeeded
                &&& after.phase == InitPhase::Leading
                &&& action matches InitAction::AwaitLeader(urls) && urls@ == init::mgmt_urls(
                    c.records(),
                    self.succeeded@,
                )
            },
            (InitPhase::Leading, _) => {
                &&& leader_told(c, leader_by(reply), d)
                &&& after.succeeded == self.succeeded
                &&& after.phase == InitPhase::Writing
                &&& action matches InitAction::Write(ws) && init::is_topology(
                    ws@,
                    c.records(),
                    init::nodes_of(self.succeeded@),
                    self.succeeded@,
                )
            },
            (InitPhase::Writing, _) => {
                &&& d == c
                &&& after.phase == InitPhase::Over
                &&& action matches InitAction::Finished(s) && s.store_id == 0 && s.group_id == 0
                    && s.nodes@ == self.succeeded@
            },
            _ => false,
        }
    }

    fn node_ids(&self) -> (ids: Vec<u64>)
        ensures
            ids@ == init::nodes_of(self.succeeded@),
    {
        nodes_of_pairs(&self.succeeded)
    }

    /// What is done next, after a reply.
    pub fn next(&mut self, ctx: &mut OpContext, reply: InitReply) -> (action: InitAction)
        requires
            old(self).fits(reply),
        ensures
            final(self).single_node == old(self).single_node,
            old(self).stepped(*old(ctx), reply, *final(self), *final(ctx), action),
            phases_left(final(self).phase) < phases_left(old(self).phase),
    {
        match self.phase {
            InitPhase::Asking => {
                let results = match reply {
                    InitReply::Outcomes(r) => r,
                    _ => Vec::new(),
                };
                let collected = collect_init(results);
                if let Some(error) = collected.failure {
                    self.phase = InitPhase::Over;
                    return InitAction::RollBack {
                        node_ids: nodes_of_pairs(&collected.succeeded),
                        error,
                    };
                }
                self.succeeded = collected.succeeded;
                if self.single_node {
                    record_init(ctx, &self.succeeded);
                    self.phase = InitPhase::Leading;
                } else {
                    self.phase = InitPhase::Finding;
                }
                InitAction::FindEndpoints(self.node_ids())
            },
            InitPhase::Finding => {
                let endpoints = match reply {
                    InitReply::Endpoints(e) => e,
                    _ => Vec::new(),
                };
                self.phase = InitPhase::Wiring;
                InitAction::Wire(all_wirings(&self.succeeded, &endpoints))
            },
            InitPhase::Wiring => {
                record_init(ctx, &self.succeeded);
                self.phase = InitPhase::Leading;
                let urls = match &ctx.client.mgmt_seeds {
                    Some(s) => {
                        let copy = s.clone();
                        assert(copy@ =~= s@);
                        copy
                    },
                    None => Vec::new(),
                };
                InitAction::AwaitLeader(urls)
            },
            InitPhase::Leading => {
                let none: Vec<Option<String>> = Vec::new();
                let leader = match &reply {
                    InitReply::Endpoints(es) => leader_after_init(true, es, None),
                    InitReply::Report(Some(stores)) => leader_after_init(
                        false,
                        &none,
                        Some(stores),
                    ),
                    _ => None,
                };
                if let Some(l) = leader {
                    ctx.client.group0_leader = Some(l);
                }
                self.phase = InitPhase::Writing;
                let ids = self.node_ids();
                InitAction::Write(write_topology_to_sysdata(ctx, &ids, &self.succeeded))
            },
            _ => {
                self.phase = InitPhase::Over;
                InitAction::Finished(
                    InitSummary { store_id: 0, group_id: 0, nodes: copy_pairs(&self.succeeded) },
                )
            },
        }
    }
}

fn copy_pairs(pairs: &Vec<(u64, u64)>) -> (copy: Vec<(u64, u64)>)
    ensures
        copy@ == pairs@,
{
    let mut copy: Vec<(u64, u64)> = Vec::new();
    while copy.len() < pairs.len()
        invariant
            copy@.len() <= pairs@.len(),
            copy@ == pairs@.take(copy@.len() as int),
        decreases pairs@.len() - copy@.len(),
    {
        let i: usize = copy.len();
        copy.push(pairs[i]);
        assert(copy@ =~= pairs@.take(i + 1));
    }
    assert(copy@ =~= pairs@);
    copy
}

fn nodes_of_pairs(succeeded: &Vec<(u64, u64)>) -> (ids: Vec<u64>)
    ensures
        ids@ == init::nodes_of(succeeded@),
{
    let mut ids: Vec<u64> = Vec::new();
    while ids.len() < succeeded.len()
        invariant
            ids@.len() <= succeeded@.len(),
            forall|j: int| 0 <= j < ids@.len() ==> #[trigger] ids@[j] == succeeded@[j].0,
        decreases succeeded@.len() - ids@.len(),
    {
        let i: usize = ids.len();
        ids.push(succeeded[i].0);
    }
    assert(ids@ =~= init::nodes_of(succeeded@));
    ids
}

/// The nodes are told of their peers one by one and in order; one without peers
/// is told nothing.
pub proof fn lemma_wirings_in_order(
    succeeded: Seq<(u64, u64)>,
    endpoints: Seq<Option<String>>,
    n: int,
)
    requires
        0 <= n < succeeded.len(),
    ensures
        wirings(succeeded, endpoints, 0).len() == 0,
        ({
            let told = wirings(succeeded, endpoints, n);
            let remotes = init::peers(succeeded, endpoints, n, succeeded.len() as int);
            &&& remotes.len() == 0 ==> wirings(succeeded, endpoints, n + 1) == told
            &&& remotes.len() > 0 ==> wirings(succeeded, endpoints, n + 1).len() == told.len() + 1
            &&& remotes.len() > 0 ==> wirings(succeeded, endpoints, n + 1).drop_last() == told
            &&& remotes.len() > 0 ==> wirings(succeeded, endpoints, n + 1).last() == (
                succeeded[n].0,
                remotes,
            )
        }),
{
    let told = wirings(succeeded, endpoints, n);
    let remotes = init::peers(succeeded, endpoints, n, succeeded.len() as int);
    if remotes.len() > 0 {
        assert(told.push((succeeded[n].0, remotes)).drop_last() =~= told);
    }
}

/// What a wiring says is its node and its peers.
pub proof fn lemma_wired(ws: Seq<Wiring>, i: int)
    requires
        0 <= i < ws.len(),
    ensures
        wired(ws).len() == ws.len(),
        wired(ws)[i].0 == ws[i].node_id,
        wired(ws)[i].1 == ws[i].remotes@,
{
}

/// The phases follow one another, and each has the reply that it waits for.
pub proof fn lemma_phases(flow: InitFlow, reply: InitReply)
    ensures
        phases_left(InitPhase::Asking) > phases_left(InitPhase::Finding),
        phases_left(InitPhase::Finding) > phases_left(InitPhase::Wiring),
        phases_left(InitPhase::Wiring) > phases_left(InitPhase::Leading),
        phases_left(InitPhase::Leading) > phases_left(InitPhase::Writing),
        phases_left(InitPhase::Writing) > phases_left(InitPhase::Over),
        phases_left(InitPhase::Over) == 0,
        flow.phase is Asking ==> (flow.fits(reply) <==> reply is Outcomes),
        flow.phase is Finding ==> (flow.fits(reply) <==> reply is Endpoints),
        flow.phase is Wiring ==> (flow.fits(reply) <==> reply is Done),
        flow.phase is Leading && flow.single_node ==> (flow.fits(reply) <==> reply is Endpoints),
        flow.phase is Leading && !flow.single_node ==> (flow.fits(reply) <==> reply is Report),
        flow.phase is Writing ==> (flow.fits(reply) <==> reply is Done),
        flow.phase is Over ==> !flow.fits(reply),
{
}

/// Where the leader is, by the reply that names it.
pub proof fn lemma_leader_by(reply: InitReply)
    ensures
        reply matches InitReply::Endpoints(es) ==> leader_by(reply) == init::first_endpoint(es@),
        reply matches InitReply::Report(Some(stores)) ==> leader_by(reply)
            == init::reported_leader(stores@),
        reply matches InitReply::Report(None) ==> leader_by(reply) is None,
        reply is Done || reply is Outcomes ==> leader_by(reply) is None,
{
}

/// Once the group is recorded the client knows where its nodes are managed, and
/// nothing else was touched.
pub proof fn lemma_recorded(before: OpContext, succeeded: Seq<(u64, u64)>, after: OpContext)
    requires
        recorded(before, succeeded, after),
    ensures
        init::group0_recorded(before.records(), succeeded, after.records()),
        before.records().well_formed() ==> after.records().well_formed(),
        after.client.mgmt_seeds is Some && after.client.mgmt_seeds->0@ == init::mgmt_urls(
            before.records(),
            succeeded,
        ),
        after.client.group0_leader == before.client.group0_leader,
        after.pending == before.pending,
        after.discovery == before.discovery,
        after.test_scenario == before.test_scenario,
{
}

/// A leader that is known is told to the client; else it keeps the one it has.
pub proof fn lemma_leader_told(before: OpContext, leader: Option<Seq<char>>, after: OpContext)
    requires
        leader_told(before, leader, after),
    ensures
        leader matches Some(l) ==> after.client.group0_leader is Some
            && after.client.group0_leader->0@ == l,
        leader is None ==> after.client.group0_leader == before.client.group0_leader,
        after.registry == before.registry,
        after.client.mgmt_seeds == before.client.mgmt_seeds,
        after.pending == before.pending,
        after.discovery == before.discovery,
        after.test_scenario == before.test_scenario,
{
}

/// Where a node could not be won, nothing is recorded, the group is taken off
/// the nodes that were won, and the first failure is the error.
pub proof fn lemma_lost_node_rolls_back(
    flow: InitFlow,
    c: OpContext,
    results: Vec<Result<(u64, u64), Error>>,
    after: InitFlow,
    d: OpContext,
    action: InitAction,
    i: int,
)
    requires
        flow.phase is Asking,
        flow.stepped(c, InitReply::Outcomes(results), after, d, action),
        0 <= i < results@.len(),
        results@[i] is Err,
        forall|j: int| 0 <= j < i ==> (#[trigger] results@[j]) is Ok,
    ensures
        d == c,
        after.phase is Over,
        action matches InitAction::RollBack { node_ids, error } && error == results@[i]->Err_0
            && node_ids@ == init::nodes_of(init::successes(results@)),
{
    let p = |r: Result<(u64, u64), Error>| r is Err;
    lists::lemma_first_index(results@, p);
    assert(p(results@[i]));
    match lists::first_index(results@, p) {
        Some(k) => {
            if k < i {
                assert(p(results@[k]));
                assert(results@[k] is Ok);
            }
            if i < k {
                assert(!p(results@[i]));
            }
        },
        None => {},
    }
}

/// Where every node was won, all of them take part, with the replicas that they
/// answered with, and their endpoints are looked for. A single node's group is
/// recorded at once.
pub proof fn lemma_won_nodes_take_part(
    flow: InitFlow,
    c: OpContext,
    results: Vec<Result<(u64, u64), Error>>,
    after: InitFlow,
    d: OpContext,
    action: InitAction,
    i: int,
)
    requires
        flow.phase is Asking,
        flow.stepped(c, InitReply::Outcomes(results), after, d, action),
        forall|j: int| 0 <= j < results@.len() ==> (#[trigger] results@[j]) is Ok,
        0 <= i < results@.len(),
    ensures
        after.succeeded@.len() == results@.len(),
        after.succeeded@[i] == results@[i]->Ok_0,
        action matches InitAction::FindEndpoints(ids) && ids@.len() == results@.len() && ids@[i]
            == results@[i]->Ok_0.0,
        flow.single_node ==> after.phase is Leading && recorded(c, after.succeeded@, d),
        !flow.single_node ==> after.phase is Finding && d == c,
{
    let p = |r: Result<(u64, u64), Error>| r is Err;
    lists::lemma_first_index(results@, p);
    match lists::first_index(results@, p) {
        Some(k) => {
            assert(p(results@[k]));
            assert(results@[k] is Ok);
        },
        None => {},
    }
    init::lemma_all_succeeded(results@);
    assert(init::successes(results@)[i] == results@[i]->Ok_0);
}

/// After the nodes were won: they are told of their peers, then the group is
/// recorded and its leader waited for, then the topology is written, and then
/// the group is up with the nodes that took part.
pub proof fn lemma_group_comes_up(
    flow: InitFlow,
    c: OpContext,
    reply: InitReply,
    after: InitFlow,
    d: OpContext,
    action: InitAction,
)
    requires
        flow.fits(reply),
        flow.stepped(c, reply, after, d, action),
    ensures
        flow.phase is Finding ==> {
            &&& reply matches InitReply::Endpoints(es) && (action matches InitAction::Wire(ws)
                && wired(ws@) == wirings(flow.succeeded@, es@, flow.succeeded@.len() as int))
            &&& after.phase is Wiring
            &&& after.succeeded == flow.succeeded
            &&& d == c
        },
        flow.phase is Wiring ==> {
            &&& action matches InitAction::AwaitLeader(urls) && urls@ == init::mgmt_urls(
                c.records(),
                flow.succeeded@,
            )
            &&& after.phase is Leading
            &&& after.succeeded == flow.succeeded
            &&& recorded(c, flow.succeeded@, d)
        },
        flow.phase is Leading ==> {
            &&& action matches InitAction::Write(ws) && init::is_topology(
                ws@,
                c.records(),
                init::nodes_of(flow.succeeded@),
                flow.succeeded@,
            )
            &&& after.phase is Writing
            &&& after.succeeded == flow.succeeded
            &&& leader_told(c, leader_by(reply), d)
        },
        flow.phase is Writing ==> {
            &&& action matches InitAction::Finished(s) && s.store_id == 0 && s.group_id == 0
                && s.nodes@ == flow.succeeded@
            &&& after.phase is Over
            &&& d == c
        },
{
}

} // verus!

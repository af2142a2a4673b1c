//! Taking clusters down, and wiping what they hold.

use vstd::prelude::*;

use crate::console::config::{Registry, ServerEntry, ServiceType};
use crate::console::error::Error;
use crate::console::lifecycle::wait::{Wait, MILLISECOND};
use crate::console::ops::cluster::CleanResult;
use crate::console::ops::context::OpContext;
#[allow(unused_imports)]
use crate::lists;
#[allow(unused_imports)]
use crate::ordered;
use crate::ordered::{collect_sorted, HasKey, Keyed};
#[allow(unused_imports)]
use crate::text;
use crate::text::text_less;

verus! {

impl HasKey for String {
    open spec fn key(&self) -> Seq<int> {
        text::text_key(self@)
    }
}

impl Keyed for String {
    fn precedes(&self, other: &Self) -> (r: bool) {
        text_less(self.as_str(), other.as_str())
    }
}

/// The processes that are recorded.
pub open spec fn recorded_pids(servers: Seq<ServerEntry>) -> Seq<u32> {
    servers.filter(|s: ServerEntry| s.pid is Some).map_values(|s: ServerEntry| s.pid->0)
}

/// The processes to end when a cluster is taken down: those of all servers.
pub fn processes(ctx: &OpContext) -> (r: Vec<u32>)
    ensures
        r@ == recorded_pids(ctx.records().servers),
{
    let servers = &ctx.registry.servers;
    let ghost p = |s: ServerEntry| s.pid is Some;
    let ghost g = |s: ServerEntry| s.pid->0;
    let mut r: Vec<u32> = Vec::new();
    let mut i: usize = 0;
    proof {
        reveal(Seq::filter);
        assert(r@ =~= recorded_pids(servers@.take(0)));
    }
    while i < servers.len()
        invariant
            i <= servers@.len(),
            p == (|s: ServerEntry| s.pid is Some),
            g == (|s: ServerEntry| s.pid->0),
            r@ == recorded_pids(servers@.take(i as int)),
        decreases servers@.len() - i,
    {
        proof {
            let t = servers@.take(i as int);
            let x = servers@[i as int];
            assert(servers@.take(i + 1) =~= t.push(x));
            t.lemma_filter_push(x, p);
            assert(t.filter(p).push(x).map_values(g) =~= t.filter(p).map_values(g).push(g(x)));
        }
        if let Some(pid) = servers[i].pid {
            r.push(pid);
        }
        i = i + 1;
    }
    assert(servers@.take(i as int) =~= servers@);
    r
}

/// A key-value server on a node.
pub open spec fn kv_with_node(s: ServerEntry) -> bool {
    s.service_type == ServiceType::Kv && s.node_id is Some
}

/// The nodes of the key-value servers.
pub open spec fn kv_nodes(servers: Seq<ServerEntry>) -> Seq<u64> {
    servers.filter(|s: ServerEntry| kv_with_node(s)).map_values(|s: ServerEntry| s.node_id->0)
}

/// The nodes whose stores are removed when a cluster is taken down.
pub fn nodes_to_clear(ctx: &OpContext) -> (r: Vec<u64>)
    ensures
        r@ == kv_nodes(ctx.records().servers),
{
    let servers = &ctx.registry.servers;
    let ghost p = |s: ServerEntry| kv_with_node(s);
    let ghost g = |s: ServerEntry| s.node_id->0;
    let mut r: Vec<u64> = Vec::new();
    let mut i: usize = 0;
    proof {
        reveal(Seq::filter);
        assert(r@ =~= kv_nodes(servers@.take(0)));
    }
    while i < servers.len()
        invariant
            i <= servers@.len(),
            p == (|s: ServerEntry| kv_with_node(s)),
            g == (|s: ServerEntry| s.node_id->0),
            r@ == kv_nodes(servers@.take(i as int)),
        decreases servers@.len() - i,
    {
        proof {
            let t = servers@.take(i as int);
            let x = servers@[i as int];
            assert(servers@.take(i + 1) =~= t.push(x));
            t.lemma_filter_push(x, p);
            assert(t.filter(p).push(x).map_values(g) =~= t.filter(p).map_values(g).push(g(x)));
        }
        if servers[i].service_type == ServiceType::Kv {
            if let Some(node_id) = servers[i].node_id {
                r.push(node_id);
            }
        }
        i = i + 1;
    }
    assert(servers@.take(i as int) =~= servers@);
    r
}

/// The stores of a node that are removed: all but the system's.
pub fn stores_to_remove(store_ids: &Vec<u64>) -> (r: Vec<u64>)
    ensures
        r@ == store_ids@.filter(|id: u64| id != 0),
{
    let accepts = |id: &u64| -> (b: bool)
        ensures
            b == (*id != 0)
    { *id != 0 };
    lists::select(store_ids, accepts, Ghost(|id: u64| id != 0))
}

/// The first failure among outcomes.
pub open spec fn result_of(outcomes: Seq<Result<(), Error>>) -> Result<(), Error> {
    match lists::first_index(outcomes, |o: Result<(), Error>| o is Err) {
        Some(i) => outcomes[i],
        None => Ok(()),
    }
}

/// How a teardown ended, by how its steps ended, in order: no step is left out
/// because an earlier one failed, and the first failure is the one reported.
pub fn first_failure(outcomes: Vec<Result<(), Error>>) -> (r: Result<(), Error>)
    ensures
        r == result_of(outcomes@),
{
    let ghost failed = |o: Result<(), Error>| o is Err;
    let n: usize = outcomes.len();
    let mut i: usize = 0;
    while i < n
        invariant
            i <= n == outcomes@.len(),
            failed == (|o: Result<(), Error>| o is Err),
            forall|j: int| 0 <= j < i ==> !failed(#[trigger] outcomes@[j]),
        decreases n - i,
    {
        if outcomes[i].is_err() {
            proof {
                lists::lemma_is_first_index(outcomes@, failed, i as int);
            }
            let mut rest = outcomes;
            return rest.swap_remove(i);
        }
        i = i + 1;
    }
    proof {
        lists::lemma_no_first_index(outcomes@, failed);
    }
    Ok(())
}

/// Records that a cluster was taken down: its servers, stores and groups are
/// forgotten, its hardware stays.
pub fn destroy(ctx: &mut OpContext)
    ensures
        final(ctx).same_setup(*old(ctx)),
        final(ctx).pending == old(ctx).pending,
        final(ctx).records() == (Registry {
            servers: Seq::empty(),
            stores: Seq::empty(),
            groups: Seq::empty(),
            ..old(ctx).records()
        }),
        old(ctx).records().well_formed() ==> final(ctx).records().well_formed(),
{
    ctx.registry.stores = Vec::new();
    ctx.registry.groups = Vec::new();
    ctx.registry.servers = Vec::new();
    assert(ctx.records() =~= (Registry {
        servers: Seq::empty(),
        stores: Seq::empty(),
        groups: Seq::empty(),
        ..old(ctx).records()
    }));
    proof {
        let before = old(ctx).records();
        let after = ctx.records();
        if before.well_formed() {
            assert forall|i: int| 0 <= i < after.nodes.len() implies after.rack_index(
                (#[trigger] after.nodes[i]).rack_id,
            ) is Some by {
                assert(before.rack_index(before.nodes[i].rack_id) is Some);
            }
            assert forall|i: int| 0 <= i < after.disks.len() implies after.disk_group_index(
                (#[trigger] after.disks[i]).disk_group_id,
            ) is Some by {
                assert(before.disk_group_index(before.disks[i].disk_group_id) is Some);
            }
        }
    }
}

/// A step of a teardown.
#[derive(Debug, Clone, Copy, PartialEq, Eq)]
pub enum TeardownAction {
    /// Stop a process.
    Stop(u32),
    /// Make a client of the key-value server on a node.
    Connect(u64),
    /// Ask the server on a node for the ids of its stores.
    ReadStores(u64),
    /// Remove a store from the server on a node.
    RemoveStore { node_id: u64, store_id: u64 },
    /// Remove the system's group from the server on a node.
    RemoveGroup(u64),
    /// Ask the metadata for the ids of all stores.
    ListStores,
    /// Remove a store from the metadata.
    ForgetStore(u64),
}

/// What is done next.
#[derive(Debug, PartialEq, Eq)]
pub enum TeardownStep {
    Do(TeardownAction),
    /// Nothing more; how the teardown ended.
    Finished(Result<(), Error>),
}

/// What a step leads to, before anything that was planned already: a node that
/// cannot be reached is passed over, and of another one all stores are removed
/// but the system's, whose group goes last.
pub open spec fn follow_ups(
    action: TeardownAction,
    reply: Result<Vec<u64>, Error>,
) -> Seq<TeardownAction> {
    match action {
        TeardownAction::Connect(node_id) => if reply is Ok {
            seq![TeardownAction::ReadStores(node_id)]
        } else {
            seq![]
        },
        TeardownAction::ReadStores(node_id) => (match reply {
            Ok(ids) => ids@.filter(|id: u64| id != 0),
            Err(_) => seq![],
        }).map_values(|store_id: u64| TeardownAction::RemoveStore { node_id, store_id }).push(
            TeardownAction::RemoveGroup(node_id),
        ),
        TeardownAction::ListStores => match reply {
            Ok(ids) => ids@.map_values(|store_id: u64| TeardownAction::ForgetStore(store_id)),
            Err(_) => seq![],
        },
        _ => seq![],
    }
}

/// What is left to do after the first step was answered. The rest stays,
/// whatever the answer was.
pub open spec fn left_after(
    todo: Seq<TeardownAction>,
    reply: Result<Vec<u64>, Error>,
) -> Seq<TeardownAction> {
    follow_ups(todo[0], reply) + todo.skip(1)
}

/// How a step ended, by its answer.
pub open spec fn outcome_of(reply: Result<Vec<u64>, Error>) -> Result<(), Error> {
    match reply {
        Ok(_) => Ok(()),
        Err(e) => Err(e),
    }
}

/// All that is planned at the start: every process is stopped, then every node
/// is cleared, then the metadata.
pub open spec fn teardown_plan(servers: Seq<ServerEntry>) -> Seq<TeardownAction> {
    recorded_pids(servers).map_values(|pid: u32| TeardownAction::Stop(pid)) + kv_nodes(
        servers,
    ).map_values(|node_id: u64| TeardownAction::Connect(node_id)) + seq![TeardownAction::ListStores]
}

/// The part of a teardown that a step belongs to.
pub open spec fn part_of(action: TeardownAction) -> int {
    match action {
        TeardownAction::Stop(_) => 0,
        TeardownAction::Connect(_) => 1,
        TeardownAction::ReadStores(_) => 1,
        TeardownAction::RemoveStore { .. } => 1,
        TeardownAction::RemoveGroup(_) => 1,
        TeardownAction::ListStores => 2,
        TeardownAction::ForgetStore(_) => 2,
    }
}

/// The server on the node that a step removes something from.
pub open spec fn removes_from(action: TeardownAction, node_id: u64) -> bool {
    action == TeardownAction::RemoveGroup(node_id) || (action matches TeardownAction::RemoveStore {
        node_id: n,
        ..
    } && n == node_id)
}

/// The steps are in order: processes before nodes before the metadata, and on a
/// node the stores before the system's group.
pub open spec fn in_order(todo: Seq<TeardownAction>) -> bool {
    &&& forall|i: int, j: int|
        0 <= i <= j < todo.len() ==> part_of(#[trigger] todo[i]) <= part_of(#[trigger] todo[j])
    &&& forall|i: int|
        0 <= i < todo.len() ==> ((#[trigger] todo[i]) matches TeardownAction::RemoveStore {
            node_id,
            ..
        } ==> i + 1 < todo.len() && removes_from(todo[i + 1], node_id))
}

/// All the steps that are done as the answers come in.
pub open spec fn steps_done(todo: Seq<TeardownAction>, replies: Seq<Result<Vec<u64>, Error>>) -> Seq<
    TeardownAction,
>
    decreases replies.len(),
{
    if todo.len() == 0 || replies.len() == 0 {
        Seq::empty()
    } else {
        seq![todo[0]] + steps_done(left_after(todo, replies[0]), replies.drop_first())
    }
}

/// What is left to do once the answers came in.
pub open spec fn left_after_all(
    todo: Seq<TeardownAction>,
    replies: Seq<Result<Vec<u64>, Error>>,
) -> Seq<TeardownAction>
    decreases replies.len(),
{
    if todo.len() == 0 || replies.len() == 0 {
        todo
    } else {
        left_after_all(left_after(todo, replies[0]), replies.drop_first())
    }
}

/// Every step that is planned is done before a teardown is over, whatever came
/// of the steps before it.
pub proof fn lemma_every_step_done(
    todo: Seq<TeardownAction>,
    replies: Seq<Result<Vec<u64>, Error>>,
    action: TeardownAction,
)
    requires
        todo.contains(action),
        left_after_all(todo, replies).len() == 0,
    ensures
        steps_done(todo, replies).contains(action),
    decreases replies.len(),
{
    let k = todo.index_of(action);
    let next = left_after(todo, replies[0]);
    let later = steps_done(next, replies.drop_first());
    let all = steps_done(todo, replies);
    if k == 0 {
        assert(all[0] == action);
    } else {
        let f = follow_ups(todo[0], replies[0]);
        assert(next[f.len() + k - 1] == todo.skip(1)[k - 1]);
        assert(next.contains(action));
        lemma_every_step_done(next, replies.drop_first(), action);
        let m = later.index_of(action);
        assert(all[m + 1] == later[m]);
    }
}

/// A step that stops or removes something leads to the same steps whether it
/// failed or not.
pub proof fn lemma_failures_passed_over(
    todo: Seq<TeardownAction>,
    ids: Vec<u64>,
    error: Error,
)
    requires
        todo.len() > 0,
        todo[0] !is Connect && todo[0] !is ReadStores && todo[0] !is ListStores,
    ensures
        left_after(todo, Ok(ids)) == todo.skip(1),
        left_after(todo, Err(error)) == todo.skip(1),
{
    assert(left_after(todo, Ok(ids)) =~= todo.skip(1));
    assert(left_after(todo, Err(error)) =~= todo.skip(1));
}

/// The steps are in order from the start on.
proof fn lemma_plan_in_order(servers: Seq<ServerEntry>)
    ensures
        in_order(teardown_plan(servers)),
{
    let stops = recorded_pids(servers).map_values(|pid: u32| TeardownAction::Stop(pid));
    let connects = kv_nodes(servers).map_values(|node_id: u64| TeardownAction::Connect(node_id));
    let plan = teardown_plan(servers);
    assert forall|i: int| 0 <= i < plan.len() implies (#[trigger] plan[i]) !is RemoveStore
        && part_of(plan[i]) == (if i < stops.len() {
        0int
    } else if i < stops.len() + connects.len() {
        1
    } else {
        2
    }) by {
        if i < stops.len() {
            assert(plan[i] == stops[i]);
        } else if i < stops.len() + connects.len() {
            assert(plan[i] == connects[i - stops.len()]);
        }
    }
}

/// The steps stay in order, whatever is answered: processes are stopped before
/// any node is cleared, the nodes before the metadata, and the system's group
/// of a node is removed after its stores.
pub proof fn lemma_teardown_in_order(todo: Seq<TeardownAction>, reply: Result<Vec<u64>, Error>)
    requires
        todo.len() > 0,
        in_order(todo),
    ensures
        in_order(left_after(todo, reply)),
{
    let f = follow_ups(todo[0], reply);
    let next = left_after(todo, reply);
    assert forall|i: int| 0 <= i < f.len() implies part_of(#[trigger] f[i]) == part_of(todo[0]) && (
    f[i] matches TeardownAction::RemoveStore { node_id, .. } ==> i + 1 < f.len() && removes_from(
        f[i + 1],
        node_id,
    )) by {
        if todo[0] is ReadStores && i + 1 < f.len() {
            assert(f[i] is RemoveStore);
            assert(i + 2 < f.len() ==> f[i + 1] is RemoveStore);
        }
    }
    assert forall|i: int, j: int| 0 <= i <= j < next.len() implies part_of(#[trigger] next[i])
        <= part_of(#[trigger] next[j]) by {
        let a = if i < f.len() {
            0
        } else {
            i - f.len() + 1
        };
        let b = if j < f.len() {
            0
        } else {
            j - f.len() + 1
        };
        assert(part_of(next[i]) == part_of(todo[a]));
        assert(part_of(next[j]) == part_of(todo[b]));
    }
    assert forall|i: int| 0 <= i < next.len() implies ((#[trigger] next[i]) matches
        TeardownAction::RemoveStore { node_id, .. } ==> i + 1 < next.len() && removes_from(
        next[i + 1],
        node_id,
    )) by {
        if i < f.len() {
            assert(next[i] == f[i]);
            assert(i + 1 < f.len() ==> next[i + 1] == f[i + 1]);
        } else {
            let k = i - f.len() + 1;
            assert(next[i] == todo[k]);
            assert(k + 1 < todo.len() ==> next[i + 1] == todo[k + 1]);
        }
    }
}

/// How much may still be found that is to be done.
pub open spec fn reads_left(todo: Seq<TeardownAction>) -> nat
    decreases todo.len(),
{
    if todo.len() == 0 {
        0
    } else {
        reads_left(todo.skip(1)) + match todo[0] {
            TeardownAction::Connect(_) => 2nat,
            TeardownAction::ReadStores(_) => 1,
            TeardownAction::ListStores => 1,
            _ => 0,
        }
    }
}

proof fn lemma_reads_left_concat(a: Seq<TeardownAction>, b: Seq<TeardownAction>)
    ensures
        reads_left(a + b) == reads_left(a) + reads_left(b),
    decreases a.len(),
{
    if a.len() == 0 {
        assert(a + b =~= b);
    } else {
        assert((a + b).skip(1) =~= a.skip(1) + b);
        lemma_reads_left_concat(a.skip(1), b);
    }
}

proof fn lemma_nothing_to_read(a: Seq<TeardownAction>)
    requires
        forall|i: int|
            0 <= i < a.len() ==> (#[trigger] a[i]) is RemoveStore || a[i] is RemoveGroup
                || a[i] is ForgetStore,
    ensures
        reads_left(a) == 0,
    decreases a.len(),
{
    if a.len() > 0 {
        assert forall|i: int| 0 <= i < a.skip(1).len() implies (#[trigger] a.skip(1)[i]) is RemoveStore
            || a.skip(1)[i] is RemoveGroup || a.skip(1)[i] is ForgetStore by {
            assert(a.skip(1)[i] == a[i + 1]);
        }
        lemma_nothing_to_read(a.skip(1));
    }
}

/// A teardown comes to an end: with every answer there is less to find out, or
/// as much and one step less to do.
pub proof fn lemma_teardown_ends(todo: Seq<TeardownAction>, reply: Result<Vec<u64>, Error>)
    requires
        todo.len() > 0,
    ensures
        reads_left(left_after(todo, reply)) < reads_left(todo) || (reads_left(
            left_after(todo, reply),
        ) == reads_left(todo) && left_after(todo, reply).len() < todo.len()),
{
    let f = follow_ups(todo[0], reply);
    lemma_reads_left_concat(f, todo.skip(1));
    match todo[0] {
        TeardownAction::Connect(node_id) => {
            if reply is Ok {
                assert(f.skip(1) =~= Seq::<TeardownAction>::empty());
                assert(f[0] == TeardownAction::ReadStores(node_id));
                assert(reads_left(f.skip(1)) == 0);
                assert(reads_left(f) == 1);
            } else {
                assert(reads_left(f) == 0);
            }
        },
        _ => {
            lemma_nothing_to_read(f);
        },
    }
}

fn append_actions(agenda: &mut Vec<TeardownAction>, actions: &Vec<TeardownAction>)
    ensures
        final(agenda)@.reverse() == actions@ + old(agenda)@.reverse(),
{
    let ghost rest = agenda@.reverse();
    let mut i: usize = actions.len();
    assert(actions@.skip(i as int) + rest =~= rest);
    while i > 0
        invariant
            i <= actions@.len(),
            agenda@.reverse() == actions@.skip(i as int) + rest,
        decreases i,
    {
        i = i - 1;
        let ghost before = agenda@;
        agenda.push(actions[i]);
        proof {
            let x = actions@[i as int];
            assert(agenda@.reverse() =~= seq![x] + before.reverse());
            assert(actions@.skip(i as int) =~= seq![x] + actions@.skip(i + 1));
            assert(agenda@.reverse() =~= actions@.skip(i as int) + rest);
        }
    }
    assert(actions@.skip(0) =~= actions@);
}

/// What a step leads to.
fn next_actions(action: TeardownAction, reply: &Result<Vec<u64>, Error>) -> (r: Vec<TeardownAction>)
    ensures
        r@ == follow_ups(action, *reply),
{
    let mut r: Vec<TeardownAction> = Vec::new();
    match (action, reply) {
        (TeardownAction::Connect(node_id), Ok(_)) => {
            r.push(TeardownAction::ReadStores(node_id));
        },
        (TeardownAction::ReadStores(node_id), Ok(ids)) => {
            let stores = stores_to_remove(ids);
            let ghost f = |store_id: u64| TeardownAction::RemoveStore { node_id, store_id };
            let mut i: usize = 0;
            while i < stores.len()
                invariant
                    i <= stores@.len(),
                    f == (|store_id: u64| TeardownAction::RemoveStore { node_id, store_id }),
                    r@ == stores@.take(i as int).map_values(f),
                decreases stores@.len() - i,
            {
                r.push(TeardownAction::RemoveStore { node_id, store_id: stores[i] });
                i = i + 1;
                assert(r@ =~= stores@.take(i as int).map_values(f));
            }
            assert(stores@.take(i as int) =~= stores@);
            r.push(TeardownAction::RemoveGroup(node_id));
        },
        (TeardownAction::ReadStores(node_id), Err(_)) => {
            r.push(TeardownAction::RemoveGroup(node_id));
        },
        (TeardownAction::ListStores, Ok(ids)) => {
            let ghost f = |store_id: u64| TeardownAction::ForgetStore(store_id);
            let mut i: usize = 0;
            while i < ids.len()
                invariant
                    i <= ids@.len(),
                    f == (|store_id: u64| TeardownAction::ForgetStore(store_id)),
                    r@ == ids@.take(i as int).map_values(f),
                decreases ids@.len() - i,
            {
                r.push(TeardownAction::ForgetStore(ids[i]));
                i = i + 1;
                assert(r@ =~= ids@.take(i as int).map_values(f));
            }
            assert(ids@.take(i as int) =~= ids@);
        },
        _ => {},
    }
    assert(r@ =~= follow_ups(action, *reply));
    r
}

/// All that is planned at the start.
fn planned_actions(ctx: &OpContext) -> (r: Vec<TeardownAction>)
    ensures
        r@ == teardown_plan(ctx.records().servers),
{
    let mut r: Vec<TeardownAction> = Vec::new();
    let pids = processes(ctx);
    let ghost stops = pids@.map_values(|pid: u32| TeardownAction::Stop(pid));
    let mut i: usize = 0;
    while i < pids.len()
        invariant
            i <= pids@.len(),
            stops == pids@.map_values(|pid: u32| TeardownAction::Stop(pid)),
            r@ == stops.take(i as int),
        decreases pids@.len() - i,
    {
        r.push(TeardownAction::Stop(pids[i]));
        i = i + 1;
        assert(r@ =~= stops.take(i as int));
    }
    let nodes = nodes_to_clear(ctx);
    let ghost connects = nodes@.map_values(|node_id: u64| TeardownAction::Connect(node_id));
    let mut k: usize = 0;
    assert(r@ =~= stops + connects.take(0));
    while k < nodes.len()
        invariant
            k <= nodes@.len(),
            connects == nodes@.map_values(|node_id: u64| TeardownAction::Connect(node_id)),
            r@ == stops + connects.take(k as int),
        decreases nodes@.len() - k,
    {
        r.push(TeardownAction::Connect(nodes[k]));
        k = k + 1;
        assert(r@ =~= stops + connects.take(k as int));
    }
    assert(connects.take(k as int) =~= connects);
    r.push(TeardownAction::ListStores);
    assert(r@ =~= teardown_plan(ctx.records().servers));
    r
}

/// A teardown under way: what is left to do, the next step last, and how the
/// steps ended that were done.
#[derive(Debug, PartialEq, Eq)]
pub struct Teardown {
    agenda: Vec<TeardownAction>,
    outcomes: Vec<Result<(), Error>>,
}

impl Teardown {
    /// What is left to do, in order.
    pub closed spec fn todo(self) -> Seq<TeardownAction> {
        self.agenda@.reverse()
    }

    /// How the steps ended that were done.
    pub closed spec fn done(self) -> Seq<Result<(), Error>> {
        self.outcomes@
    }

    /// Plans a teardown, and says what is done first.
    pub fn start(ctx: &OpContext) -> (r: (Teardown, TeardownAction))
        ensures
            r.0.todo() == teardown_plan(ctx.records().servers),
            in_order(r.0.todo()),
            r.0.done() == Seq::<Result<(), Error>>::empty(),
            r.1 == r.0.todo()[0],
    {
        let plan = planned_actions(ctx);
        let mut agenda: Vec<TeardownAction> = Vec::new();
        append_actions(&mut agenda, &plan);
        proof {
            lemma_plan_in_order(ctx.records().servers);
            assert(Seq::<TeardownAction>::empty().reverse() =~= Seq::<TeardownAction>::empty());
            assert(agenda@.reverse() =~= plan@);
        }
        let first = plan[0];
        (Teardown { agenda, outcomes: Vec::new() }, first)
    }

    /// Takes the answer to the step that was to be done, and says what is done
    /// next. A failure is kept, and the teardown goes on. In the end the
    /// servers, stores and groups are forgotten, and the first failure is
    /// reported.
    pub fn next(&mut self, ctx: &mut OpContext, reply: Result<Vec<u64>, Error>) -> (step:
        TeardownStep)
        requires
            old(self).todo().len() > 0,
        ensures
            final(self).todo() == left_after(old(self).todo(), reply),
            in_order(old(self).todo()) ==> in_order(final(self).todo()),
            if final(self).todo().len() > 0 {
                &&& step == TeardownStep::Do(final(self).todo()[0])
                &&& final(self).done() == old(self).done().push(outcome_of(reply))
                &&& *final(ctx) == *old(ctx)
            } else {
                &&& step == TeardownStep::Finished(
                    result_of(old(self).done().push(outcome_of(reply))),
                )
                &&& final(self).done() == Seq::<Result<(), Error>>::empty()
                &&& final(ctx).same_setup(*old(ctx))
                &&& final(ctx).pending == old(ctx).pending
                &&& final(ctx).records() == (Registry {
                    servers: Seq::empty(),
                    stores: Seq::empty(),
                    groups: Seq::empty(),
                    ..old(ctx).records()
                })
                &&& old(ctx).records().well_formed() ==> final(ctx).records().well_formed()
            },
    {
        let ghost todo = self.todo();
        let n: usize = self.agenda.len();
        let action = self.agenda[n - 1];
        let actions = next_actions(action, &reply);
        let _ = self.agenda.pop();
        assert(self.agenda@.reverse() =~= todo.skip(1));
        append_actions(&mut self.agenda, &actions);
        proof {
            if in_order(todo) {
                lemma_teardown_in_order(todo, reply);
            }
        }
        self.outcomes.push(
            match reply {
                Ok(_) => Ok(()),
                Err(e) => Err(e),
            },
        );
        let left: usize = self.agenda.len();
        if left > 0 {
            return TeardownStep::Do(self.agenda[left - 1]);
        }
        let mut outcomes: Vec<Result<(), Error>> = Vec::new();
        std::mem::swap(&mut outcomes, &mut self.outcomes);
        destroy(ctx);
        TeardownStep::Finished(first_failure(outcomes))
    }
}

/// The nodes of a store that are asked whether they are alive: those with a
/// key-value server.
pub fn nodes_to_probe(ctx: &OpContext, node_ids: &Vec<u64>) -> (r: Vec<u64>)
    ensures
        r@ == node_ids@.filter(|id: u64| ctx.records().kv_index(id) is Some),
{
    let accepts = |id: &u64| -> (b: bool)
        ensures
            b == (ctx.records().kv_index(*id) is Some)
    { ctx.registry.server_for_node(*id).is_some() };
    lists::select(node_ids, accepts, Ghost(|id: u64| ctx.records().kv_index(id) is Some))
}

/// Whether a store's metadata is removed: no node that was asked is alive.
pub fn is_orphaned(alive: &Vec<bool>) -> (r: bool)
    ensures
        r == !alive@.contains(true),
{
    let accepts = |a: &bool| -> (b: bool)
        ensures
            b == *a
    { *a };
    match lists::position(alive, accepts, Ghost(|a: bool| a)) {
        Some(i) => {
            assert(alive@[i as int]);
            false
        },
        None => {
            assert(forall|j: int| 0 <= j < alive@.len() ==> !(#[trigger] alive@[j]));
            true
        },
    }
}

/// The addresses of the key-value servers, in the order in which they were
/// added.
pub open spec fn kv_urls(servers: Seq<ServerEntry>) -> Seq<String> {
    servers.filter(|s: ServerEntry| s.service_type == ServiceType::Kv).map_values(
        |s: ServerEntry| s.url,
    )
}

/// The addresses of the key-value servers.
pub fn kv_server_urls(ctx: &OpContext) -> (r: Vec<String>)
    ensures
        r@ == kv_urls(ctx.records().servers),
{
    let servers = &ctx.registry.servers;
    let ghost p = |s: ServerEntry| s.service_type == ServiceType::Kv;
    let ghost g = |s: ServerEntry| s.url;
    let mut r: Vec<String> = Vec::new();
    let mut i: usize = 0;
    proof {
        reveal(Seq::filter);
        assert(r@ =~= kv_urls(servers@.take(0)));
    }
    while i < servers.len()
        invariant
            i <= servers@.len(),
            p == (|s: ServerEntry| s.service_type == ServiceType::Kv),
            g == (|s: ServerEntry| s.url),
            r@ == kv_urls(servers@.take(i as int)),
        decreases servers@.len() - i,
    {
        proof {
            let t = servers@.take(i as int);
            let x = servers@[i as int];
            assert(servers@.take(i + 1) =~= t.push(x));
            t.lemma_filter_push(x, p);
            assert(t.filter(p).push(x).map_values(g) =~= t.filter(p).map_values(g).push(g(x)));
        }
        if servers[i].service_type == ServiceType::Kv {
            r.push(servers[i].url.clone());
        }
        i = i + 1;
    }
    assert(servers@.take(i as int) =~= servers@);
    r
}

/// The servers whose user data is wiped: the addresses of the key-value
/// servers, sorted and each once. Refuses a registry without any.
pub fn clean(ctx: &OpContext) -> (r: Result<Vec<String>, Error>)
    ensures
        if kv_urls(ctx.records().servers).len() == 0 {
            r matches Err(e) && e.is_validation("servers"@, "no servers in config"@)
        } else {
            r matches Ok(urls) && ordered::is_collected(kv_urls(ctx.records().servers), urls@)
        },
{
    let urls = kv_server_urls(ctx);
    if urls.len() == 0 {
        return Err(Error::validation("servers", "no servers in config".to_owned()));
    }
    Ok(collect_sorted(urls))
}

/// What wiping came to: how many servers took it, and the leader that was
/// elected afterwards, if one was.
pub fn clean_result(accepted: &Vec<bool>, leader: Option<String>) -> (r: CleanResult)
    ensures
        r.wiped_nodes == accepted@.filter(|a: bool| a).len(),
        r.new_leader@ == (match leader {
            Some(l) => l@,
            None => Seq::<char>::empty(),
        }),
{
    let accepts = |a: &bool| -> (b: bool)
        ensures
            b == *a
    { *a };
    let wiped = lists::select(accepted, accepts, Ghost(|a: bool| a));
    let new_leader = match leader {
        Some(l) => l,
        None => String::new(),
    };
    assert(leader is None ==> new_leader@ =~= Seq::<char>::empty());
    CleanResult { new_leader, wiped_nodes: wiped.len() as u64 }
}

/// The wait for an election: all servers are asked again and again.
pub fn wait_for_election(now: u64, timeout: u64) -> (w: Wait)
    requires
        now + timeout <= u64::MAX,
    ensures
        w.deadline == now + timeout,
        w.interval == 50 * MILLISECOND,
{
    Wait::new(now, timeout, 50 * MILLISECOND)
}

/// The processes are those that are recorded, in the order of their servers; a
/// server without a process is left out.
pub proof fn lemma_pids_in_order(servers: Seq<ServerEntry>, s: ServerEntry)
    ensures
        recorded_pids(Seq::empty()).len() == 0,
        s.pid matches Some(pid) ==> recorded_pids(servers.push(s)) == recorded_pids(servers).push(
            pid,
        ),
        s.pid is None ==> recorded_pids(servers.push(s)) == recorded_pids(servers),
{
    reveal(Seq::filter);
    assert(servers.push(s).drop_last() =~= servers);
    if s.pid is Some {
        assert(recorded_pids(servers.push(s)) =~= recorded_pids(servers).push(s.pid->0));
    }
}

/// The nodes to be cleared are those with a key-value server, in the order of
/// their servers; other services and servers without a node are left out.
pub proof fn lemma_kv_nodes_in_order(servers: Seq<ServerEntry>, s: ServerEntry)
    ensures
        kv_nodes(Seq::empty()).len() == 0,
        kv_with_node(s) <==> s.service_type is Kv && s.node_id is Some,
        s.service_type is Kv && s.node_id is Some ==> kv_nodes(servers.push(s)) == kv_nodes(
            servers,
        ).push(s.node_id->0),
        !(s.service_type is Kv) || s.node_id is None ==> kv_nodes(servers.push(s)) == kv_nodes(
            servers,
        ),
{
    reveal(Seq::filter);
    assert(servers.push(s).drop_last() =~= servers);
    if kv_with_node(s) {
        assert(kv_nodes(servers.push(s)) =~= kv_nodes(servers).push(s.node_id->0));
    }
}

/// The addresses are those of the key-value servers, in order.
pub proof fn lemma_kv_urls_in_order(servers: Seq<ServerEntry>, s: ServerEntry)
    ensures
        kv_urls(Seq::empty()).len() == 0,
        s.service_type is Kv ==> kv_urls(servers.push(s)) == kv_urls(servers).push(s.url),
        !(s.service_type is Kv) ==> kv_urls(servers.push(s)) == kv_urls(servers),
{
    reveal(Seq::filter);
    assert(servers.push(s).drop_last() =~= servers);
    if s.service_type is Kv {
        assert(kv_urls(servers.push(s)) =~= kv_urls(servers).push(s.url));
    }
}

/// A teardown fails with its first failure, and succeeds where nothing failed.
pub proof fn lemma_first_failure(outcomes: Seq<Result<(), Error>>, i: int)
    ensures
        0 <= i < outcomes.len() && outcomes[i] is Err && (forall|j: int|
            0 <= j < i ==> (#[trigger] outcomes[j]) is Ok) ==> result_of(outcomes) == outcomes[i],
        (forall|j: int| 0 <= j < outcomes.len() ==> (#[trigger] outcomes[j]) is Ok) ==> result_of(
            outcomes,
        ) is Ok,
{
    let p = |o: Result<(), Error>| o is Err;
    lists::lemma_first_index(outcomes, p);
    match lists::first_index(outcomes, p) {
        Some(k) => {
            assert(p(outcomes[k]));
            if 0 <= i < k {
                assert(!p(outcomes[i]));
            }
        },
        None => {
            if 0 <= i < outcomes.len() {
                assert(!p(outcomes[i]));
            }
        },
    }
}

/// A node that is reached is asked for its stores; one that is not is passed
/// over. Every store of a node but store 0 is removed from it, and then its
/// system group, which is removed even where its stores could not be read. Every
/// store that the metadata lists is forgotten.
pub proof fn lemma_what_follows(node_id: u64, ids: Vec<u64>, e: Error, id: u64, i: int)
    ensures
        follow_ups(TeardownAction::Connect(node_id), Ok(ids)) == seq![
            TeardownAction::ReadStores(node_id),
        ],
        follow_ups(TeardownAction::Connect(node_id), Err(e)).len() == 0,
        follow_ups(TeardownAction::ReadStores(node_id), Err(e)) == seq![
            TeardownAction::RemoveGroup(node_id),
        ],
        follow_ups(TeardownAction::ReadStores(node_id), Ok(ids)).last()
            == TeardownAction::RemoveGroup(node_id),
        follow_ups(TeardownAction::ReadStores(node_id), Ok(ids)).contains(
            TeardownAction::RemoveStore { node_id, store_id: id },
        ) <==> ids@.contains(id) && id != 0,
        follow_ups(TeardownAction::ListStores, Err(e)).len() == 0,
        follow_ups(TeardownAction::ListStores, Ok(ids)).len() == ids@.len(),
        0 <= i < ids@.len() ==> follow_ups(TeardownAction::ListStores, Ok(ids))[i]
            == TeardownAction::ForgetStore(ids@[i]),
{
    let kept = ids@.filter(|x: u64| x != 0);
    let p = |x: u64| x != 0;
    let removals = kept.map_values(
        |store_id: u64| TeardownAction::RemoveStore { node_id, store_id },
    );
    let all = follow_ups(TeardownAction::ReadStores(node_id), Ok(ids));
    assert(all == removals.push(TeardownAction::RemoveGroup(node_id)));
    let wanted = TeardownAction::RemoveStore { node_id, store_id: id };
    if ids@.contains(id) && id != 0 {
        let k = choose|k: int| 0 <= k < ids@.len() && ids@[k] == id;
        assert(p(ids@[k]));
        ids@.lemma_filter_contains(p, k);
        assert(kept.contains(id));
        let m = choose|m: int| 0 <= m < kept.len() && kept[m] == id;
        assert(removals[m] == wanted);
        assert(all[m] == wanted);
    }
    if all.contains(wanted) {
        let m = choose|m: int| 0 <= m < all.len() && all[m] == wanted;
        assert(m < removals.len());
        assert(removals[m] == wanted);
        assert(kept[m] == id);
        ids@.lemma_filter_pred(p, m);
        assert(kept.contains(id));
        ids@.lemma_filter_contains_rev(p, id);
    }
    let none = Seq::<u64>::empty();
    assert(none.map_values(|store_id: u64| TeardownAction::RemoveStore { node_id, store_id }).push(
        TeardownAction::RemoveGroup(node_id),
    ) =~= seq![TeardownAction::RemoveGroup(node_id)]);
    assert(follow_ups(TeardownAction::ReadStores(node_id), Err(e)) =~= seq![
        TeardownAction::RemoveGroup(node_id),
    ]);
}

/// What was planned stays planned, behind what a step leads to.
pub proof fn lemma_rest_stays(todo: Seq<TeardownAction>, reply: Result<Vec<u64>, Error>, i: int)
    requires
        todo.len() > 0,
    ensures
        ({
            let f = follow_ups(todo[0], reply);
            let next = left_after(todo, reply);
            &&& next.len() == f.len() + todo.len() - 1
            &&& 0 <= i < f.len() ==> next[i] == f[i]
            &&& 1 <= i < todo.len() ==> next[f.len() + i - 1] == todo[i]
        }),
        outcome_of(reply) is Ok <==> reply is Ok,
        reply matches Err(e) ==> outcome_of(reply) == Err::<(), Error>(e),
{
}

/// A teardown plans to stop every recorded process, then to clear every node
/// with a key-value server, and then the metadata.
pub proof fn lemma_planned(servers: Seq<ServerEntry>, i: int)
    ensures
        ({
            let plan = teardown_plan(servers);
            let p = recorded_pids(servers).len();
            let n = kv_nodes(servers).len();
            &&& plan.len() == p + n + 1
            &&& 0 <= i < p ==> plan[i] == TeardownAction::Stop(recorded_pids(servers)[i])
            &&& 0 <= i < n ==> plan[p + i] == TeardownAction::Connect(kv_nodes(servers)[i])
            &&& plan.last() == TeardownAction::ListStores
        }),
{
}

/// The steps are done one by one, the first that is planned first.
pub proof fn lemma_steps_one_by_one(
    todo: Seq<TeardownAction>,
    replies: Seq<Result<Vec<u64>, Error>>,
)
    requires
        todo.len() > 0,
        replies.len() > 0,
    ensures
        steps_done(todo, replies)[0] == todo[0],
        steps_done(todo, replies).drop_first() == steps_done(
            left_after(todo, replies[0]),
            replies.drop_first(),
        ),
        left_after_all(todo, replies) == left_after_all(
            left_after(todo, replies[0]),
            replies.drop_first(),
        ),
        steps_done(Seq::empty(), replies).len() == 0,
        steps_done(todo, Seq::empty()).len() == 0,
        left_after_all(todo, Seq::empty()) == todo,
{
    let later = steps_done(left_after(todo, replies[0]), replies.drop_first());
    assert((seq![todo[0]] + later).drop_first() =~= later);
}

/// In steps that are in order, no process is stopped behind a node's turn, none
/// of these comes behind the metadata, and what follows the removal of a store
/// is another removal from the same node.
pub proof fn lemma_order_of_steps(todo: Seq<TeardownAction>, i: int, j: int)
    requires
        in_order(todo),
        0 <= i < j < todo.len(),
    ensures
        todo[j] is Stop ==> todo[i] is Stop,
        todo[i] is ListStores || todo[i] is ForgetStore ==> todo[j] is ListStores
            || todo[j] is ForgetStore,
        todo[i] matches TeardownAction::RemoveStore { node_id, .. } ==> (todo[i + 1]
            == TeardownAction::RemoveGroup(node_id) || (todo[i
            + 1] matches TeardownAction::RemoveStore { node_id: n, .. } && n == node_id)),
{
    assert(part_of(todo[i]) <= part_of(todo[j]));
    if todo[i] is RemoveStore {
        assert(removes_from(todo[i + 1], todo[i]->RemoveStore_node_id));
    }
}

} // verus!

//! Which service instance a disk's blocks are written through.

use std::collections::HashMap;

use vstd::prelude::*;

use crate::chunk::error::{prefixed, IoError};
use crate::diskio::DiskIoRetCode;
use crate::kv::registry::InstanceValue;
#[allow(unused_imports)]
use crate::lists;
use crate::protocol::{DiskId, Segment};
#[allow(unused_imports)]
use crate::rpc::endpoint;
use crate::rpc::endpoint::split_port;
#[allow(unused_imports)]
use crate::text;
use crate::text::{decimal_text, strip_prefix};

verus! {

broadcast use vstd::std_specs::hash::group_hash_axioms;

/// The text of the error that `str::parse::<i32>` gives for text that is not
/// a 32-bit number.
pub uninterp spec fn i32_error(text: Seq<char>) -> Seq<char>;

/// `str::parse::<i32>` reads a sign, which may be left out, and decimal digits
/// that make up a 32-bit number, and describes the fault of any other text.
#[verifier::external_body]
fn parse_port(text: &str) -> (r: Result<i32, String>)
    ensures
        match r {
            Ok(n) => text::parsed_i32(text@) == Some(n as int),
            Err(t) => text::parsed_i32(text@) is None && t@ == i32_error(text@),
        },
{
    text.parse::<i32>().map_err(|e| e.to_string())
}

/// `e` without the scheme `http`.
pub open spec fn bare_endpoint(e: Seq<char>) -> Seq<char> {
    if "http://"@.is_prefix_of(e) {
        e.skip("http://"@.len() as int)
    } else {
        e
    }
}

/// The host and port of an instance's endpoint.
pub fn parse_endpoint(e: &str) -> (r: Result<(String, i32), IoError>)
    ensures
        ({
            let s = bare_endpoint(e@);
            match r {
                Ok((host, port)) => text::last_index(s, ':') is Some && host@
                    == endpoint::host_part(s) && text::parsed_i32(endpoint::port_part(s)) == Some(
                    port as int,
                ),
                Err(err) => if text::last_index(s, ':') is None {
                    err.is_topology("invalid DiskIO endpoint "@ + s)
                } else {
                    text::parsed_i32(endpoint::port_part(s)) is None && err.is_topology(
                        "invalid DiskIO endpoint "@ + s + ": "@ + i32_error(
                            endpoint::port_part(s),
                        ),
                    )
                },
            }
        }),
{
    let bare = match strip_prefix(e, "http://") {
        Some(t) => t,
        None => e.to_owned(),
    };
    match split_port(bare.as_str()) {
        None => {
            let mut text = "invalid DiskIO endpoint ".to_owned();
            text.append(bare.as_str());
            Err(IoError::Topology(text))
        },
        Some((host, port)) => match parse_port(port.as_str()) {
            Ok(n) => Ok((host, n)),
            Err(fault) => {
                let mut text = "invalid DiskIO endpoint ".to_owned();
                text.append(bare.as_str());
                text.append(": ");
                text.append(fault.as_str());
                Err(IoError::Topology(text))
            },
        },
    }
}

/// The disk groups that an instance says it owns, if it says anything of it.
pub open spec fn owned_groups(v: InstanceValue) -> Option<Seq<u64>> {
    match v.extra {
        Some(e) => match e.diskdb {
            Some(d) => Some(d.owned_dg_ids@),
            None => None,
        },
        None => None,
    }
}

/// The owners known so far and one instance's claims to `ids`, one after the
/// other: each group goes to the instance, unless it has an owner.
pub open spec fn claimed(
    owners: Map<u64, Seq<char>>,
    ids: Seq<u64>,
    endpoint: Seq<char>,
) -> Result<Map<u64, Seq<char>>, Seq<char>>
    decreases ids.len(),
{
    if ids.len() == 0 {
        Ok(owners)
    } else if owners.contains_key(ids[0]) {
        Err(
            "disk group "@ + text::decimal(ids[0] as nat) + " has duplicate owners "@
                + owners[ids[0]] + " and "@ + endpoint,
        )
    } else {
        claimed(owners.insert(ids[0], endpoint), ids.drop_first(), endpoint)
    }
}

/// The owner of each disk group by what the instances claim, or what is wrong
/// with it.
pub open spec fn owners_from(
    owners: Map<u64, Seq<char>>,
    instances: Seq<(u64, InstanceValue)>,
) -> Result<Map<u64, Seq<char>>, Seq<char>>
    decreases instances.len(),
{
    if instances.len() == 0 {
        Ok(owners)
    } else {
        let v = instances[0].1;
        match owned_groups(v) {
            None => Err("DiskIO "@ + v.rpc_endpoint@ + " has no ownership metadata"@),
            Some(ids) => match claimed(owners, ids, v.rpc_endpoint@) {
                Err(e) => Err(e),
                Ok(m) => owners_from(m, instances.drop_first()),
            },
        }
    }
}

proof fn lemma_claimed_keeps(owners: Map<u64, Seq<char>>, ids: Seq<u64>, endpoint: Seq<char>)
    ensures
        claimed(owners, ids, endpoint) matches Ok(m) ==> {
            &&& forall|k: u64| #[trigger]
                owners.contains_key(k) ==> m.contains_key(k) && m[k] == owners[k]
            &&& forall|i: int|
                0 <= i < ids.len() ==> m.contains_key(#[trigger] ids[i]) && m[ids[i]] == endpoint
                    && !owners.contains_key(ids[i])
        },
    decreases ids.len(),
{
    if ids.len() > 0 && !owners.contains_key(ids[0]) {
        let next = owners.insert(ids[0], endpoint);
        let rest = ids.drop_first();
        lemma_claimed_keeps(next, rest, endpoint);
        if let Ok(m) = claimed(owners, ids, endpoint) {
            assert(next.contains_key(ids[0]));
            assert forall|k: u64| #[trigger] owners.contains_key(k) implies m.contains_key(k) && m[k]
                == owners[k] by {
                assert(next.contains_key(k));
            }
            assert forall|i: int| 0 <= i < ids.len() implies m.contains_key(#[trigger] ids[i])
                && m[ids[i]] == endpoint && !owners.contains_key(ids[i]) by {
                if i > 0 {
                    assert(rest[i - 1] == ids[i]);
                }
            }
        }
    }
}

/// Where the owners are accepted, every claim holds: each group that an
/// instance owns is written through that instance.
pub proof fn lemma_owners_hold(
    owners: Map<u64, Seq<char>>,
    instances: Seq<(u64, InstanceValue)>,
)
    ensures
        owners_from(owners, instances) matches Ok(m) ==> {
            &&& forall|k: u64| #[trigger]
                owners.contains_key(k) ==> m.contains_key(k) && m[k] == owners[k]
            &&& forall|i: int, j: int|
                0 <= i < instances.len() && 0 <= j < owned_groups(instances[i].1)->0.len() ==> {
                    let g = #[trigger] owned_groups(instances[i].1)->0[j];
                    m.contains_key(g) && m[g] == instances[i].1.rpc_endpoint@
                }
            &&& forall|i: int|
                0 <= i < instances.len() ==> owned_groups((#[trigger] instances[i]).1) is Some
        },
    decreases instances.len(),
{
    if instances.len() > 0 {
        let v = instances[0].1;
        if let Some(ids) = owned_groups(v) {
            lemma_claimed_keeps(owners, ids, v.rpc_endpoint@);
            if let Ok(next) = claimed(owners, ids, v.rpc_endpoint@) {
                let rest = instances.drop_first();
                lemma_owners_hold(next, rest);
                if let Ok(m) = owners_from(owners, instances) {
                    assert forall|i: int, j: int|
                        0 <= i < instances.len() && 0 <= j < owned_groups(
                            instances[i].1,
                        )->0.len() implies {
                        let g = #[trigger] owned_groups(instances[i].1)->0[j];
                        m.contains_key(g) && m[g] == instances[i].1.rpc_endpoint@
                    } by {
                        if i > 0 {
                            assert(rest[i - 1] == instances[i]);
                            assert(owned_groups(rest[i - 1].1)->0[j] == owned_groups(
                                instances[i].1,
                            )->0[j]);
                        } else {
                            assert(next.contains_key(ids[j]));
                        }
                    }
                    assert forall|i: int| 0 <= i < instances.len() implies owned_groups(
                        (#[trigger] instances[i]).1,
                    ) is Some by {
                        if i > 0 {
                            assert(rest[i - 1] == instances[i]);
                        }
                    }
                }
            }
        }
    }
}

fn claim_groups(owners: &mut HashMap<u64, String>, ids: &Vec<u64>, endpoint: &String) -> (r: Result<
    (),
    IoError,
>)
    ensures
        match claimed(endpoint::endpoint_map(old(owners)@), ids@, endpoint@) {
            Ok(m) => r is Ok && endpoint::endpoint_map(final(owners)@) == m,
            Err(t) => r matches Err(e) && e.is_topology(t),
        },
{
    let ghost start = endpoint::endpoint_map(owners@);
    let mut i: usize = 0;
    assert(ids@.skip(0) =~= ids@);
    while i < ids.len()
        invariant
            i <= ids@.len(),
            start == endpoint::endpoint_map(old(owners)@),
            claimed(start, ids@, endpoint@) == claimed(
                endpoint::endpoint_map(owners@),
                ids@.skip(i as int),
                endpoint@,
            ),
        decreases ids@.len() - i,
    {
        let id: u64 = ids[i];
        let ghost before = owners@;
        assert(ids@.skip(i as int)[0] == id);
        assert(ids@.skip(i as int).drop_first() =~= ids@.skip(i + 1));
        if let Some(previous) = owners.insert(id, endpoint.clone()) {
            assert(before.contains_key(id) && before[id] == previous);
            assert(endpoint::endpoint_map(before).contains_key(id));
            let mut text = "disk group ".to_owned();
            text.append(decimal_text(id).as_str());
            text.append(" has duplicate owners ");
            text.append(previous.as_str());
            text.append(" and ");
            text.append(endpoint.as_str());
            return Err(IoError::Topology(text));
        }
        assert(!before.contains_key(id));
        assert(endpoint::endpoint_map(owners@) =~= endpoint::endpoint_map(before).insert(id, endpoint@));
        i = i + 1;
    }
    Ok(())
}

/// What is looked for when disks are routed.
#[derive(Debug, Clone, Copy, PartialEq, Eq, Structural)]
pub enum Lookup {
    /// The transport that the services are called over.
    Transport,
    /// The living services.
    Instances,
    /// The disks.
    Disks,
}

/// The error of a look that failed, which says `detail`.
pub fn lookup_error(what: Lookup, detail: &str) -> (e: IoError)
    ensures
        e.is_topology(
            (match what {
                Lookup::Transport => "start RPC client: "@,
                Lookup::Instances => "read DiskIO instances: "@,
                Lookup::Disks => "read disks: "@,
            }) + detail@,
        ),
{
    IoError::Topology(
        match what {
            Lookup::Transport => prefixed("start RPC client: ", detail),
            Lookup::Instances => prefixed("read DiskIO instances: ", detail),
            Lookup::Disks => prefixed("read disks: ", detail),
        },
    )
}

/// The error of a service that could not be connected to.
pub fn connect_error(endpoint: &str, detail: &str) -> (e: IoError)
    ensures
        e.is_topology("connect DiskIO "@ + endpoint@ + ": "@ + detail@),
{
    let mut text = "connect DiskIO ".to_owned();
    text.append(endpoint);
    text.append(": ");
    text.append(detail);
    IoError::Topology(text)
}

/// The owner of each disk group. Refuses an instance that says nothing of
/// ownership, and a group with two owners.
pub fn disk_group_owners(instances: &Vec<(u64, InstanceValue)>) -> (r: Result<
    HashMap<u64, String>,
    IoError,
>)
    ensures
        match owners_from(Map::empty(), instances@) {
            Ok(m) => r matches Ok(o) && endpoint::endpoint_map(o@) == m,
            Err(t) => r matches Err(e) && e.is_topology(t),
        },
{
    let mut owners: HashMap<u64, String> = HashMap::new();
    let mut i: usize = 0;
    let ghost none: Map<u64, Seq<char>> = Map::empty();
    assert(endpoint::endpoint_map(owners@) =~= none);
    assert(instances@.skip(0) =~= instances@);
    while i < instances.len()
        invariant
            i <= instances@.len(),
            owners_from(none, instances@) == owners_from(
                endpoint::endpoint_map(owners@),
                instances@.skip(i as int),
            ),
            none == Map::<u64, Seq<char>>::empty(),
        decreases instances@.len() - i,
    {
        let v = &instances[i].1;
        assert(instances@.skip(i as int)[0] == instances@[i as int]);
        assert(instances@.skip(i as int).drop_first() =~= instances@.skip(i + 1));
        let ids = match &v.extra {
            Some(e) => match &e.diskdb {
                Some(d) => Some(&d.owned_dg_ids),
                None => None,
            },
            None => None,
        };
        match ids {
            None => {
                let mut text = "DiskIO ".to_owned();
                text.append(v.rpc_endpoint.as_str());
                text.append(" has no ownership metadata");
                return Err(IoError::Topology(text));
            },
            Some(ids) => match claim_groups(&mut owners, ids, &v.rpc_endpoint) {
                Err(e) => {
                    return Err(e);
                },
                Ok(_) => {},
            },
        }
        i = i + 1;
    }
    Ok(owners)
}

/// A disk and the group that it belongs to.
#[derive(Debug, Clone, Copy, PartialEq, Eq, Structural)]
pub struct DiskPlace {
    pub disk_id: DiskId,
    pub disk_group_id: u64,
}

/// What to do next to complete the routes.
#[derive(Debug, Clone, PartialEq, Eq)]
pub enum RouteStep {
    /// Connect to the endpoint.
    Connect { endpoint: String, host: String, port: i32 },
    /// All routes are there.
    Done,
}

/// The way to a disk: the endpoint that it is written through.
#[derive(Debug, Clone, PartialEq, Eq)]
pub struct Route {
    pub disk_id: DiskId,
    pub endpoint: String,
}

/// Routes to disks, built disk by disk; every endpoint is connected to once.
pub struct RouteBuilder {
    owners: HashMap<u64, String>,
    disks: Vec<DiskPlace>,
    connected: Vec<String>,
    routes: Vec<Route>,
}

impl RouteBuilder {
    pub closed spec fn owner_map(self) -> Map<u64, Seq<char>> {
        endpoint::endpoint_map(self.owners@)
    }

    pub closed spec fn places(self) -> Seq<DiskPlace> {
        self.disks@
    }

    /// The endpoints that have been connected to.
    pub closed spec fn endpoints(self) -> Seq<Seq<char>> {
        self.connected@.map_values(|s: String| s@)
    }

    /// The disks that have a route, in order, with their endpoints.
    pub closed spec fn routed(self) -> Seq<(DiskId, Seq<char>)> {
        self.routes@.map_values(|r: Route| (r.disk_id, r.endpoint@))
    }

    /// A route that goes to its disk through the disk's owner, over a
    /// connection.
    pub open spec fn leads(self, i: int) -> bool {
        let d = self.places()[i];
        &&& self.owner_map().contains_key(d.disk_group_id)
        &&& self.routed()[i] == (d.disk_id, self.owner_map()[d.disk_group_id])
        &&& self.endpoints().contains(self.owner_map()[d.disk_group_id])
    }

    /// The routes go to the first disks.
    pub open spec fn well_formed(self) -> bool {
        &&& self.routed().len() <= self.places().len()
        &&& forall|i: int| 0 <= i < self.routed().len() ==> #[trigger] self.leads(i)
    }

    pub fn new(owners: HashMap<u64, String>, disks: Vec<DiskPlace>) -> (b: Self)
        ensures
            b.well_formed(),
            b.owner_map() == endpoint::endpoint_map(owners@),
            b.places() == disks@,
            b.endpoints() == Seq::<Seq<char>>::empty(),
            b.routed() == Seq::<(DiskId, Seq<char>)>::empty(),
    {
        let b = RouteBuilder { owners, disks, connected: Vec::new(), routes: Vec::new() };
        assert(b.endpoints() =~= Seq::<Seq<char>>::empty());
        assert(b.routed() =~= Seq::<(DiskId, Seq<char>)>::empty());
        b
    }

    /// Routes further disks as far as their owners are connected, and says
    /// what is needed next. Refuses a disk whose group has no owner, and an
    /// owner whose endpoint is malformed.
    pub fn advance(&mut self) -> (r: Result<RouteStep, IoError>)
        requires
            old(self).well_formed(),
        ensures
            final(self).well_formed(),
            final(self).owner_map() == old(self).owner_map(),
            final(self).places() == old(self).places(),
            final(self).endpoints() == old(self).endpoints(),
            final(self).routed().len() >= old(self).routed().len(),
            final(self).routed().take(old(self).routed().len() as int) == old(self).routed(),
            match r {
                Ok(RouteStep::Done) => final(self).routed().len() == final(self).places().len(),
                Ok(RouteStep::Connect { endpoint: e, host, port }) => {
                    let n = final(self).routed().len();
                    &&& n < final(self).places().len()
                    &&& final(self).owner_map().contains_key(
                        final(self).places()[n as int].disk_group_id,
                    )
                    &&& e@ == final(self).owner_map()[final(self).places()[n as int].disk_group_id]
                    &&& !final(self).endpoints().contains(e@)
                    &&& text::last_index(bare_endpoint(e@), ':') is Some
                    &&& host@ == endpoint::host_part(bare_endpoint(e@))
                    &&& text::parsed_i32(endpoint::port_part(bare_endpoint(e@))) == Some(
                        port as int,
                    )
                },
                Err(err) => {
                    let n = final(self).routed().len();
                    &&& n < final(self).places().len()
                    &&& {
                        let g = final(self).places()[n as int].disk_group_id;
                        if !final(self).owner_map().contains_key(g) {
                            err.is_topology(
                                "disk group "@ + text::decimal(g as nat)
                                    + " has no live DiskIO owner"@,
                            )
                        } else {
                            let s = bare_endpoint(final(self).owner_map()[g]);
                            if text::last_index(s, ':') is None {
                                err.is_topology("invalid DiskIO endpoint "@ + s)
                            } else {
                                text::parsed_i32(endpoint::port_part(s)) is None && err.is_topology(
                                    "invalid DiskIO endpoint "@ + s + ": "@ + i32_error(
                                        endpoint::port_part(s),
                                    ),
                                )
                            }
                        }
                    }
                },
            },
    {
        let ghost start = *self;
        assert(self.routed().take(self.routed().len() as int) =~= self.routed());
        while self.routes.len() < self.disks.len()
            invariant
                self.well_formed(),
                self.owner_map() == start.owner_map(),
                self.places() == start.places(),
                self.endpoints() == start.endpoints(),
                self.routed().len() >= start.routed().len(),
                self.routed().take(start.routed().len() as int) == start.routed(),
                start == *old(self),
            decreases self.disks@.len() - self.routes@.len(),
        {
            let n: usize = self.routes.len();
            let disk = self.disks[n];
            let owner = match self.owners.get(&disk.disk_group_id) {
                Some(e) => e.clone(),
                None => {
                    assert(!self.owner_map().contains_key(disk.disk_group_id));
                    let mut text = "disk group ".to_owned();
                    text.append(decimal_text(disk.disk_group_id).as_str());
                    text.append(" has no live DiskIO owner");
                    return Err(IoError::Topology(text));
                },
            };
            assert(self.owner_map().contains_key(disk.disk_group_id));
            assert(self.owner_map()[disk.disk_group_id] == owner@);
            let accepts = |s: &String| -> (b: bool)
                ensures
                    b == (s@ == owner@)
            { *s == owner };
            let known = lists::position(
                &self.connected,
                accepts,
                Ghost(|s: String| s@ == owner@),
            );
            match known {
                None => {
                    assert(!self.endpoints().contains(owner@)) by {
                        if self.endpoints().contains(owner@) {
                            let j = choose|j: int|
                                0 <= j < self.endpoints().len() && self.endpoints()[j] == owner@;
                            assert(self.connected@[j]@ == owner@);
                        }
                    }
                    match parse_endpoint(owner.as_str()) {
                        Err(e) => {
                            return Err(e);
                        },
                        Ok((host, port)) => {
                            return Ok(RouteStep::Connect { endpoint: owner, host, port });
                        },
                    }
                },
                Some(j) => {
                    assert(self.endpoints()[j as int] == owner@);
                    assert(self.endpoints().contains(owner@));
                },
            }
            let route = Route { disk_id: disk.disk_id, endpoint: owner };
            let ghost earlier = *self;
            let ghost before = self.routed();
            self.routes.push(route);
            proof {
                assert(self.routed() =~= before.push((disk.disk_id, owner@)));
                assert forall|i: int| 0 <= i < self.routed().len() implies #[trigger] self.leads(i) by {
                    if i < before.len() {
                        assert(earlier.leads(i));
                        assert(self.routed()[i] == before[i]);
                    }
                }
                assert(self.routed().take(start.routed().len() as int) =~= start.routed());
            }
        }
        Ok(RouteStep::Done)
    }

    /// Takes note of a connection.
    pub fn connected(&mut self, endpoint: String)
        requires
            old(self).well_formed(),
        ensures
            final(self).well_formed(),
            final(self).owner_map() == old(self).owner_map(),
            final(self).places() == old(self).places(),
            final(self).endpoints() == old(self).endpoints().push(endpoint@),
            final(self).routed() == old(self).routed(),
    {
        let ghost before = self.endpoints();
        self.connected.push(endpoint);
        proof {
            assert(self.endpoints() =~= before.push(endpoint@));
            assert(self.routed() == old(self).routed());
            assert forall|i: int| 0 <= i < self.routed().len() implies #[trigger] self.leads(i) by {
                assert(old(self).leads(i));
                let x = self.owner_map()[self.places()[i].disk_group_id];
                assert(before.contains(x));
                let j = choose|j: int| 0 <= j < before.len() && before[j] == x;
                assert(self.endpoints()[j] == x);
            }
        }
    }

    /// The endpoint that a disk is written through: that of its last route.
    /// Refuses a disk without route.
    pub fn route(&self, disk_id: DiskId) -> (r: Result<&String, IoError>)
        ensures
            match r {
                Ok(e) => exists|i: int| #[trigger]
                    is_last_route(self.routed(), disk_id, i) && self.routed()[i].1 == e@,
                Err(e) => (forall|i: int|
                    0 <= i < self.routed().len() ==> (#[trigger] self.routed()[i]).0 != disk_id)
                    && e.is_topology(
                    "disk "@ + text::decimal(disk_id.high as nat) + ":"@ + text::decimal(
                        disk_id.low as nat,
                    ) + " has no route"@,
                ),
            },
    {
        let mut n: usize = self.routes.len();
        while n > 0
            invariant
                n <= self.routes@.len(),
                forall|j: int|
                    n <= j < self.routes@.len() ==> (#[trigger] self.routes@[j]).disk_id != disk_id,
            decreases n,
        {
            n = n - 1;
            if self.routes[n].disk_id == disk_id {
                assert(is_last_route(self.routed(), disk_id, n as int));
                return Ok(&self.routes[n].endpoint);
            }
        }
        let mut text = "disk ".to_owned();
        text.append(decimal_text(disk_id.high).as_str());
        text.append(":");
        text.append(decimal_text(disk_id.low).as_str());
        text.append(" has no route");
        Err(IoError::Topology(text))
    }
}

/// The last route to a disk.
pub open spec fn is_last_route(
    routed: Seq<(DiskId, Seq<char>)>,
    disk_id: DiskId,
    i: int,
) -> bool {
    &&& 0 <= i < routed.len()
    &&& routed[i].0 == disk_id
    &&& forall|j: int| i < j < routed.len() ==> (#[trigger] routed[j]).0 != disk_id
}

/// Where a segment's data goes: its disk, and the byte offset in its zone.
#[derive(Debug, Clone, Copy, PartialEq, Eq, Structural)]
pub struct BlockTarget {
    pub disk_id: DiskId,
    pub zone_index: u32,
    pub zone_offset: u64,
}

/// Where a segment's data goes. Refuses a segment without disk.
pub fn block_target(seg: &Segment, unit_bytes: u64) -> (r: Result<BlockTarget, IoError>)
    requires
        seg.disk_id is Some ==> seg.unit_offset * unit_bytes <= u64::MAX,
    ensures
        match seg.disk_id {
            Some(id) => r == Ok::<BlockTarget, IoError>(
                BlockTarget {
                    disk_id: id,
                    zone_index: seg.zone_index,
                    zone_offset: (seg.unit_offset * unit_bytes) as u64,
                },
            ),
            None => r matches Err(e) && e.is_write_failed("segment missing disk_id"@),
        },
{
    match seg.disk_id {
        Some(id) => Ok(
            BlockTarget {
                disk_id: id,
                zone_index: seg.zone_index,
                zone_offset: seg.unit_offset * unit_bytes,
            },
        ),
        None => Err(IoError::write_failed("segment missing disk_id")),
    }
}

/// The two block operations.
#[derive(Debug, Clone, Copy, PartialEq, Eq, Structural)]
pub enum BlockOp {
    Write,
    Fsync,
}

/// What a direct block operation came to.
pub fn check_block_code(op: BlockOp, code: DiskIoRetCode) -> (r: Result<(), IoError>)
    ensures
        match r {
            Ok(_) => code == DiskIoRetCode::Success,
            Err(e) => code != DiskIoRetCode::Success && e.is_write_failed(
                (if op == BlockOp::Write {
                    "disk write returned "@
                } else {
                    "disk fsync returned "@
                }) + code.name_text(),
            ),
        },
{
    if code == DiskIoRetCode::Success {
        return Ok(());
    }
    let mut text = if op == BlockOp::Write {
        "disk write returned ".to_owned()
    } else {
        "disk fsync returned ".to_owned()
    };
    text.append(code.name());
    Err(IoError::WriteFailed(text))
}

/// What a block operation through a routed endpoint came to.
pub fn check_routed_code(endpoint: &str, code: DiskIoRetCode) -> (r: Result<(), IoError>)
    ensures
        match r {
            Ok(_) => code == DiskIoRetCode::Success,
            Err(e) => code != DiskIoRetCode::Success && e.is_write_failed(
                endpoint@ + " returned "@ + code.name_text(),
            ),
        },
{
    if code == DiskIoRetCode::Success {
        return Ok(());
    }
    let mut text = endpoint.to_owned();
    text.append(" returned ");
    text.append(code.name());
    Err(IoError::WriteFailed(text))
}

/// The error of a routed operation that failed with `detail`.
pub fn routed_error(endpoint: &str, detail: &str) -> (e: IoError)
    ensures
        e.is_write_failed(endpoint@ + ": "@ + detail@),
{
    let mut text = endpoint.to_owned();
    text.append(": ");
    text.append(detail);
    IoError::WriteFailed(text)
}

/// An endpoint is taken without the scheme `http`, and as it is without one.
pub proof fn lemma_bare_endpoint(e: Seq<char>)
    ensures
        bare_endpoint("http://"@ + e) == e,
        !"http://"@.is_prefix_of(e) ==> bare_endpoint(e) == e,
{
    let s = "http://"@ + e;
    assert(s.take("http://"@.len() as int) =~= "http://"@);
    assert("http://"@.is_prefix_of(s));
    assert(s.skip("http://"@.len() as int) =~= e);
}

/// The groups that an instance owns are those that it lists, all of them and in
/// their order.
pub proof fn lemma_owned_groups_listed(v: InstanceValue)
    ensures
        v.extra matches Some(e) ==> (e.diskdb matches Some(d) ==> owned_groups(v) == Some(
            d.owned_dg_ids@,
        )),
        owned_groups(v) is Some ==> v.extra is Some && v.extra->0.diskdb is Some,
{
}

/// A group has an owner only by somebody's claim.
pub proof fn lemma_owners_claimed(
    owners: Map<u64, Seq<char>>,
    instances: Seq<(u64, InstanceValue)>,
    group: u64,
)
    ensures
        owners_from(owners, instances) matches Ok(m) ==> (m.contains_key(group) ==> {
            ||| owners.contains_key(group) && m[group] == owners[group]
            ||| exists|i: int|
                0 <= i < instances.len() && owned_groups((#[trigger] instances[i]).1) is Some
                    && owned_groups(instances[i].1)->0.contains(group) && m[group]
                    == instances[i].1.rpc_endpoint@
        }),
    decreases instances.len(),
{
    if instances.len() > 0 {
        let v = instances[0].1;
        if let Some(ids) = owned_groups(v) {
            lemma_claimed_only(owners, ids, v.rpc_endpoint@, group);
            if let Ok(next) = claimed(owners, ids, v.rpc_endpoint@) {
                let rest = instances.drop_first();
                lemma_owners_claimed(next, rest, group);
                lemma_owners_hold(next, rest);
                if let Ok(m) = owners_from(owners, instances) {
                    if m.contains_key(group) {
                        if next.contains_key(group) {
                            if !(owners.contains_key(group) && m[group] == owners[group]) {
                                assert(owned_groups(instances[0].1)->0.contains(group));
                            }
                        } else {
                            let i = choose|i: int|
                                0 <= i < rest.len() && owned_groups((#[trigger] rest[i]).1) is Some
                                    && owned_groups(rest[i].1)->0.contains(group) && m[group]
                                    == rest[i].1.rpc_endpoint@;
                            assert(rest[i] == instances[i + 1]);
                        }
                    }
                }
            }
        }
    }
}

proof fn lemma_claimed_only(
    owners: Map<u64, Seq<char>>,
    ids: Seq<u64>,
    endpoint: Seq<char>,
    group: u64,
)
    ensures
        claimed(owners, ids, endpoint) matches Ok(m) ==> (m.contains_key(group) ==> (
        owners.contains_key(group) && m[group] == owners[group]) || (ids.contains(group)
            && m[group] == endpoint)),
    decreases ids.len(),
{
    if ids.len() > 0 && !owners.contains_key(ids[0]) {
        let next = owners.insert(ids[0], endpoint);
        let rest = ids.drop_first();
        lemma_claimed_only(next, rest, endpoint, group);
        lemma_claimed_keeps(next, rest, endpoint);
        if rest.contains(group) {
            let j = rest.index_of(group);
            assert(ids[j + 1] == group);
        }
        assert(ids[0] == group ==> ids.contains(group));
        assert(next.contains_key(ids[0]));
    }
}

/// Every route leads to its own disk, by way of the owner of the disk's group,
/// who is connected.
pub proof fn lemma_routes_lead_to_owners(b: RouteBuilder, i: int)
    requires
        b.well_formed(),
        0 <= i < b.routed().len(),
    ensures
        i < b.places().len(),
        b.routed()[i].0 == b.places()[i].disk_id,
        b.owner_map().contains_key(b.places()[i].disk_group_id),
        b.routed()[i].1 == b.owner_map()[b.places()[i].disk_group_id],
        b.endpoints().contains(b.routed()[i].1),
{
    assert(b.leads(i));
}

/// The last route to a disk leads to it, and none behind it does.
pub proof fn lemma_last_route(routed: Seq<(DiskId, Seq<char>)>, disk_id: DiskId, i: int, j: int)
    requires
        is_last_route(routed, disk_id, i),
        0 <= j < routed.len(),
        routed[j].0 == disk_id,
    ensures
        0 <= i < routed.len(),
        routed[i].0 == disk_id,
        j <= i,
{
}

/// An instance claims its groups one after the other. A group that has an owner
/// is not claimed again: both owners are named.
pub proof fn lemma_claims_one_by_one(
    owners: Map<u64, Seq<char>>,
    id: u64,
    rest: Seq<u64>,
    endpoint: Seq<char>,
)
    ensures
        claimed(owners, Seq::empty(), endpoint) == Ok::<Map<u64, Seq<char>>, Seq<char>>(owners),
        owners.contains_key(id) ==> claimed(owners, seq![id] + rest, endpoint) == Err::<
            Map<u64, Seq<char>>,
            Seq<char>,
        >(
            "disk group "@ + text::decimal(id as nat) + " has duplicate owners "@ + owners[id]
                + " and "@ + endpoint,
        ),
        !owners.contains_key(id) ==> claimed(owners, seq![id] + rest, endpoint) == claimed(
            owners.insert(id, endpoint),
            rest,
            endpoint,
        ),
{
    let ids = seq![id] + rest;
    assert(ids[0] == id);
    assert(ids.drop_first() =~= rest);
}

/// Instances are heard one after the other. One that says nothing of its groups,
/// or claims one that has an owner, is refused.
pub proof fn lemma_instances_heard_in_order(
    owners: Map<u64, Seq<char>>,
    first: (u64, InstanceValue),
    rest: Seq<(u64, InstanceValue)>,
)
    ensures
        owners_from(owners, Seq::empty()) == Ok::<Map<u64, Seq<char>>, Seq<char>>(owners),
        owned_groups(first.1) is None ==> owners_from(owners, seq![first] + rest) == Err::<
            Map<u64, Seq<char>>,
            Seq<char>,
        >("DiskIO "@ + first.1.rpc_endpoint@ + " has no ownership metadata"@),
        owned_groups(first.1) matches Some(ids) ==> match claimed(
            owners,
            ids,
            first.1.rpc_endpoint@,
        ) {
            Ok(m) => owners_from(owners, seq![first] + rest) == owners_from(m, rest),
            Err(e) => owners_from(owners, seq![first] + rest) == Err::<
                Map<u64, Seq<char>>,
                Seq<char>,
            >(e),
        },
{
    let all = seq![first] + rest;
    assert(all[0] == first);
    assert(all.drop_first() =~= rest);
}

} // verus!

//! Racks, nodes, disk groups and disks. Every operation changes the registry
//! and lets the cluster's metadata follow.

use vstd::prelude::*;

#[allow(unused_imports)]
use crate::console::config;
use crate::console::config::{
    ConsoleConfig, DiskEntry, DiskGroupEntry, NodeEntry, RackEntry, Registry, ServerEntry,
};
use crate::console::error::Error;
use crate::console::ops::context::{DiskValue, OpContext, SysdataUpdate};
use crate::diskdb::responses::{DiskType, HwStatus};
#[allow(unused_imports)]
use crate::lists;
#[allow(unused_imports)]
use crate::ordered;
#[allow(unused_imports)]
use crate::ordered::HasKey;
use crate::protocol::DiskId;
#[allow(unused_imports)]
use crate::text;
use crate::text::{decimal_text, text_eq};

verus! {

/// Adds a rack. Refuses an id that is taken.
pub fn add_rack(ctx: &mut OpContext, rack_id: u64, name: &str) -> (r: Result<RackEntry, Error>)
    ensures
        final(ctx).same_setup(*old(ctx)),
        old(ctx).records().well_formed() ==> final(ctx).records().well_formed(),
        if old(ctx).records().rack_index(rack_id) is Some {
            &&& final(ctx).records() == old(ctx).records()
            &&& final(ctx).pending@ == old(ctx).pending@
            &&& r matches Err(e) && e.is_conflict("rack"@, text::decimal(rack_id as nat))
        } else {
            r matches Ok(entry) && {
                &&& entry.id == rack_id && entry.name@ == name@
                &&& final(ctx).records() == (Registry {
                    racks: old(ctx).records().racks.push(entry),
                    ..old(ctx).records()
                })
                &&& final(ctx).pending@ == old(ctx).followed(
                    seq![SysdataUpdate::AddRack { rack_id }],
                )
            }
        },
{
    let entry = RackEntry { id: rack_id, name: name.to_owned() };
    match ctx.registry.add_rack(entry.clone()) {
        Err(e) => Err(e),
        Ok(_) => {
            ctx.follow(SysdataUpdate::AddRack { rack_id });
            Ok(entry)
        },
    }
}

/// Removes a rack. Refuses while a node refers to it.
pub fn remove_rack(ctx: &mut OpContext, rack_id: u64) -> (r: Result<(), Error>)
    ensures
        final(ctx).same_setup(*old(ctx)),
        old(ctx).records().well_formed() ==> final(ctx).records().well_formed(),
        if lists::first_index(old(ctx).records().nodes, |n: NodeEntry| n.rack_id == rack_id)
            is Some {
            &&& final(ctx).records() == old(ctx).records()
            &&& final(ctx).pending@ == old(ctx).pending@
            &&& r matches Err(e) && e.is_conflict(
                "rack"@,
                text::decimal(rack_id as nat) + ": rack still referenced by nodes"@,
            )
        } else {
            match old(ctx).records().rack_index(rack_id) {
                Some(i) => {
                    &&& r is Ok
                    &&& final(ctx).records() == (Registry {
                        racks: old(ctx).records().racks.remove(i),
                        ..old(ctx).records()
                    })
                    &&& final(ctx).pending@ == old(ctx).followed(
                        seq![SysdataUpdate::RemoveRack { rack_id }],
                    )
                },
                None => {
                    &&& final(ctx).records() == old(ctx).records()
                    &&& final(ctx).pending@ == old(ctx).pending@
                    &&& r matches Err(e) && e.is_not_found("rack"@, text::decimal(rack_id as nat))
                },
            }
        },
{
    match ctx.registry.remove_rack(rack_id) {
        Err(e) => Err(e),
        Ok(_) => {
            ctx.follow(SysdataUpdate::RemoveRack { rack_id });
            Ok(())
        },
    }
}

/// All racks.
pub fn list_racks(ctx: &OpContext) -> (r: Vec<RackEntry>)
    ensures
        r@ == ctx.records().racks,
{
    let r = ctx.registry.racks.clone();
    assert(r@ =~= ctx.registry.racks@);
    r
}

/// Adds a node. Refuses an id that is taken, then a rack that is not recorded.
pub fn add_node(ctx: &mut OpContext, entry: NodeEntry) -> (r: Result<NodeEntry, Error>)
    ensures
        final(ctx).same_setup(*old(ctx)),
        old(ctx).records().well_formed() ==> final(ctx).records().well_formed(),
        if old(ctx).records().node_index(entry.id) is Some {
            &&& final(ctx).records() == old(ctx).records()
            &&& final(ctx).pending@ == old(ctx).pending@
            &&& r matches Err(e) && e.is_conflict("node"@, text::decimal(entry.id as nat))
        } else if old(ctx).records().rack_index(entry.rack_id) is None {
            &&& final(ctx).records() == old(ctx).records()
            &&& final(ctx).pending@ == old(ctx).pending@
            &&& r matches Err(e) && e.is_validation(
                "rack_id"@,
                "unknown rack "@ + text::decimal(entry.rack_id as nat),
            )
        } else {
            &&& r == Ok::<NodeEntry, Error>(entry)
            &&& final(ctx).records() == (Registry {
                nodes: old(ctx).records().nodes.push(entry),
                ..old(ctx).records()
            })
            &&& final(ctx).pending@ == old(ctx).followed(
                seq![SysdataUpdate::AddNode { rack_id: entry.rack_id, node_id: entry.id }],
            )
        },
{
    match ctx.registry.add_node(entry.clone()) {
        Err(e) => Err(e),
        Ok(_) => {
            ctx.follow(SysdataUpdate::AddNode { rack_id: entry.rack_id, node_id: entry.id });
            Ok(entry)
        },
    }
}

/// Removes a node. Refuses while a server is recorded on it.
pub fn remove_node(ctx: &mut OpContext, node_id: u64) -> (r: Result<(), Error>)
    ensures
        final(ctx).same_setup(*old(ctx)),
        old(ctx).records().well_formed() ==> final(ctx).records().well_formed(),
        if lists::first_index(
            old(ctx).records().servers,
            |s: ServerEntry| s.node_id == Some(node_id),
        ) is Some {
            &&& final(ctx).records() == old(ctx).records()
            &&& final(ctx).pending@ == old(ctx).pending@
            &&& r matches Err(e) && e.is_conflict(
                "node"@,
                text::decimal(node_id as nat) + ": node still hosts a deployed server"@,
            )
        } else {
            match old(ctx).records().node_index(node_id) {
                Some(i) => {
                    &&& r is Ok
                    &&& final(ctx).records() == (Registry {
                        nodes: old(ctx).records().nodes.remove(i),
                        ..old(ctx).records()
                    })
                    &&& final(ctx).pending@ == old(ctx).followed(
                        seq![
                            SysdataUpdate::RemoveNode {
                                rack_id: old(ctx).records().nodes[i].rack_id,
                                node_id,
                            },
                        ],
                    )
                },
                None => {
                    &&& final(ctx).records() == old(ctx).records()
                    &&& final(ctx).pending@ == old(ctx).pending@
                    &&& r matches Err(e) && e.is_not_found("node"@, text::decimal(node_id as nat))
                },
            }
        },
{
    match ctx.registry.remove_node(node_id) {
        Err(e) => Err(e),
        Ok(node) => {
            ctx.follow(SysdataUpdate::RemoveNode { rack_id: node.rack_id, node_id });
            Ok(())
        },
    }
}

/// All nodes, or those of a rack.
pub fn list_nodes(ctx: &OpContext, rack_id: Option<u64>) -> (r: Vec<NodeEntry>)
    ensures
        r@ == (match rack_id {
            Some(id) => ctx.records().nodes.filter(|n: NodeEntry| n.rack_id == id),
            None => ctx.records().nodes,
        }),
{
    match rack_id {
        Some(id) => {
            let accepts = |n: &NodeEntry| -> (b: bool)
                ensures
                    b == (n.rack_id == id)
            { n.rack_id == id };
            lists::select(&ctx.registry.nodes, accepts, Ghost(|n: NodeEntry| n.rack_id == id))
        },
        None => {
            let r = ctx.registry.nodes.clone();
            assert(r@ =~= ctx.registry.nodes@);
            r
        },
    }
}

/// Adds a disk group to a node. Refuses a node that is not recorded, then an
/// id that is taken.
pub fn add_disk_group(ctx: &mut OpContext, node_id: u64, dg_id: u64, name: &str) -> (r: Result<
    DiskGroupEntry,
    Error,
>)
    ensures
        final(ctx).same_setup(*old(ctx)),
        old(ctx).records().well_formed() ==> final(ctx).records().well_formed(),
        match old(ctx).records().node_index(node_id) {
            None => {
                &&& final(ctx).records() == old(ctx).records()
                &&& final(ctx).pending@ == old(ctx).pending@
                &&& r matches Err(e) && e.is_not_found("node"@, text::decimal(node_id as nat))
            },
            Some(i) => if old(ctx).records().disk_group_index(dg_id) is Some {
                &&& final(ctx).records() == old(ctx).records()
                &&& final(ctx).pending@ == old(ctx).pending@
                &&& r matches Err(e) && e.is_conflict("disk_group"@, text::decimal(dg_id as nat))
            } else {
                r matches Ok(entry) && {
                    let rack_id = old(ctx).records().nodes[i].rack_id;
                    &&& entry.id == dg_id && entry.rack_id == rack_id && entry.node_id == node_id
                        && entry.name@ == name@
                    &&& final(ctx).records() == (Registry {
                        disk_groups: old(ctx).records().disk_groups.push(entry),
                        ..old(ctx).records()
                    })
                    &&& final(ctx).pending@ == old(ctx).followed(
                        seq![SysdataUpdate::AddDiskGroup { rack_id, node_id, dg_id }],
                    )
                }
            },
        },
{
    let rack_id: u64 = match ctx.registry.node(node_id) {
        Some(n) => n.rack_id,
        None => {
            return Err(Error::not_found("node", decimal_text(node_id)));
        },
    };
    let entry = DiskGroupEntry { id: dg_id, rack_id, node_id, name: name.to_owned() };
    match ctx.registry.add_disk_group(entry.clone()) {
        Err(e) => Err(e),
        Ok(_) => {
            ctx.follow(SysdataUpdate::AddDiskGroup { rack_id, node_id, dg_id });
            Ok(entry)
        },
    }
}

/// The disk groups of a node.
pub fn list_disk_groups(ctx: &OpContext, node_id: u64) -> (r: Vec<DiskGroupEntry>)
    ensures
        r@ == ctx.records().disk_groups.filter(|g: DiskGroupEntry| g.node_id == node_id),
{
    let accepts = |g: &DiskGroupEntry| -> (b: bool)
        ensures
            b == (g.node_id == node_id)
    { g.node_id == node_id };
    lists::select(
        &ctx.registry.disk_groups,
        accepts,
        Ghost(|g: DiskGroupEntry| g.node_id == node_id),
    )
}

/// A disk to be added.
#[derive(Debug, Clone, PartialEq, Eq)]
pub struct AddDiskInput {
    pub disk_id: String,
    pub disk_type: String,
    pub capacity_bytes: u64,
    pub zone_size_bytes: u64,
    pub unit_size_bytes: u32,
    pub device_path: String,
}

/// A disk to be added, and what its id reads as: a number, or why it does not
/// read as one.
#[derive(Debug, PartialEq, Eq)]
pub struct ReadDiskInput {
    pub input: AddDiskInput,
    pub id: Result<DiskId, String>,
}

/// The type that a name stands for.
pub open spec fn named_disk_type(name: Seq<char>) -> Option<DiskType> {
    if name == "Hdd"@ || name == "BLOCK_HDD"@ {
        Some(DiskType::BlockHdd)
    } else if name == "Ssd"@ || name == "BLOCK_SSD"@ {
        Some(DiskType::BlockSsd)
    } else if name == "ZONE_SSD"@ {
        Some(DiskType::ZoneSsd)
    } else if name == "SMR_HDD"@ {
        Some(DiskType::SmrHdd)
    } else {
        None
    }
}

/// What is wrong with a disk to be added: the field and the complaint.
pub open spec fn disk_fault(d: ReadDiskInput) -> Option<(Seq<char>, Seq<char>)> {
    let input = d.input;
    if d.id is Err {
        Some(
            (
                "disk_id"@,
                "invalid `disk_id` format for "@ + input.disk_id@ + ": "@ + d.id->Err_0@,
            ),
        )
    } else if input.unit_size_bytes == 0 || input.zone_size_bytes == 0 {
        Some(
            (
                "unit_size_bytes"@,
                "disk "@ + input.disk_id@
                    + ": unit_size_bytes and zone_size_bytes must be non-zero"@,
            ),
        )
    } else if input.zone_size_bytes % (input.unit_size_bytes as u64) != 0 {
        Some(
            (
                "zone_size_bytes"@,
                "disk "@ + input.disk_id@
                    + ": zone_size_bytes must be a multiple of unit_size_bytes"@,
            ),
        )
    } else if input.capacity_bytes < input.zone_size_bytes {
        Some(
            (
                "capacity_bytes"@,
                "disk "@ + input.disk_id@ + ": capacity_bytes must be >= zone_size_bytes"@,
            ),
        )
    } else if named_disk_type(input.disk_type@) is None {
        Some(
            (
                "disk_type"@,
                "disk "@ + input.disk_id@ + ": unknown `disk_type`: "@ + input.disk_type@,
            ),
        )
    } else {
        None
    }
}

/// How the registry records a disk.
pub open spec fn disk_entry(
    input: AddDiskInput,
    rack_id: u64,
    node_id: u64,
    dg_id: u64,
) -> DiskEntry {
    DiskEntry {
        disk_id: input.disk_id,
        disk_group_id: dg_id,
        rack_id,
        node_id,
        disk_type: input.disk_type,
        capacity_bytes: input.capacity_bytes,
        zone_size_bytes: input.zone_size_bytes,
        unit_size_bytes: input.unit_size_bytes,
        device_path: input.device_path,
    }
}

/// The number of whole zones of a disk, as far as it can be written down.
pub open spec fn zone_count(input: AddDiskInput) -> int {
    let n = (input.capacity_bytes / (input.unit_size_bytes as u64)) / (input.zone_size_bytes / (
    input.unit_size_bytes as u64));
    if n <= u32::MAX {
        n as int
    } else {
        u32::MAX as int
    }
}

/// How the cluster's metadata describes a disk that is added.
pub open spec fn disk_value(input: AddDiskInput) -> DiskValue {
    DiskValue {
        status: HwStatus::Up,
        disk_type: named_disk_type(input.disk_type@)->0,
        capacity_units: input.capacity_bytes / (input.unit_size_bytes as u64),
        zone_size_units: input.zone_size_bytes / (input.unit_size_bytes as u64),
        unit_size_bytes: input.unit_size_bytes,
        zone_count: zone_count(input) as u32,
        device_path: input.device_path,
    }
}

/// The change that follows on a disk that is added.
pub open spec fn disk_update(
    d: ReadDiskInput,
    rack_id: u64,
    node_id: u64,
    dg_id: u64,
) -> SysdataUpdate {
    SysdataUpdate::AddDisk {
        rack_id,
        node_id,
        dg_id,
        disk_id: d.id->Ok_0,
        value: disk_value(d.input),
    }
}

fn disk_type_named(name: &str) -> (r: Option<DiskType>)
    ensures
        r == named_disk_type(name@),
{
    if text_eq(name, "Hdd") || text_eq(name, "BLOCK_HDD") {
        Some(DiskType::BlockHdd)
    } else if text_eq(name, "Ssd") || text_eq(name, "BLOCK_SSD") {
        Some(DiskType::BlockSsd)
    } else if text_eq(name, "ZONE_SSD") {
        Some(DiskType::ZoneSsd)
    } else if text_eq(name, "SMR_HDD") {
        Some(DiskType::SmrHdd)
    } else {
        None
    }
}

fn disk_complaint(disk_id: &str, complaint: &str) -> (s: String)
    ensures
        s@ == "disk "@ + disk_id@ + complaint@,
{
    let mut s = "disk ".to_owned();
    s.append(disk_id);
    s.append(complaint);
    s
}

/// A whole number of units makes up a zone, and at least one zone a disk that
/// is accepted.
proof fn lemma_whole_zones(zone: u64, unit: u64)
    requires
        unit > 0,
        zone > 0,
        zone % unit == 0,
    ensures
        zone / unit > 0,
{
    vstd::arithmetic::div_mod::lemma_fundamental_div_mod(zone as int, unit as int);
    assert(unit * 0 == 0);
}

/// Checks a disk to be added, and gives what the registry and the cluster's
/// metadata record of it.
pub fn validate_disk_input(d: &ReadDiskInput, dg_id: u64, rack_id: u64, node_id: u64) -> (r: Result<
    (DiskEntry, DiskId, DiskValue),
    Error,
>)
    ensures
        match disk_fault(*d) {
            Some((field, message)) => r matches Err(e) && e.is_validation(field, message),
            None => r matches Ok((entry, id, value)) && entry == disk_entry(
                d.input,
                rack_id,
                node_id,
                dg_id,
            ) && d.id == Ok::<DiskId, String>(id) && value == disk_value(d.input),
        },
{
    let input = &d.input;
    let id = match &d.id {
        Ok(id) => *id,
        Err(text) => {
            let mut s = "invalid `disk_id` format for ".to_owned();
            s.append(input.disk_id.as_str());
            s.append(": ");
            s.append(text.as_str());
            return Err(Error::validation("disk_id", s));
        },
    };
    let unit: u64 = input.unit_size_bytes as u64;
    let zone: u64 = input.zone_size_bytes;
    if unit == 0 || zone == 0 {
        return Err(
            Error::validation(
                "unit_size_bytes",
                disk_complaint(
                    input.disk_id.as_str(),
                    ": unit_size_bytes and zone_size_bytes must be non-zero",
                ),
            ),
        );
    }
    if zone % unit != 0 {
        return Err(
            Error::validation(
                "zone_size_bytes",
                disk_complaint(
                    input.disk_id.as_str(),
                    ": zone_size_bytes must be a multiple of unit_size_bytes",
                ),
            ),
        );
    }
    if input.capacity_bytes < zone {
        return Err(
            Error::validation(
                "capacity_bytes",
                disk_complaint(
                    input.disk_id.as_str(),
                    ": capacity_bytes must be >= zone_size_bytes",
                ),
            ),
        );
    }
    proof {
        lemma_whole_zones(zone, unit);
    }
    let capacity_units: u64 = input.capacity_bytes / unit;
    let zone_size_units: u64 = zone / unit;
    let zones: u64 = capacity_units / zone_size_units;
    let zone_count: u32 = if zones <= u32::MAX as u64 {
        zones as u32
    } else {
        u32::MAX
    };
    let disk_type = match disk_type_named(input.disk_type.as_str()) {
        Some(t) => t,
        None => {
            let mut s = disk_complaint(input.disk_id.as_str(), ": unknown `disk_type`: ");
            s.append(input.disk_type.as_str());
            return Err(Error::validation("disk_type", s));
        },
    };
    let entry = DiskEntry {
        disk_id: input.disk_id.clone(),
        disk_group_id: dg_id,
        rack_id,
        node_id,
        disk_type: input.disk_type.clone(),
        capacity_bytes: input.capacity_bytes,
        zone_size_bytes: input.zone_size_bytes,
        unit_size_bytes: input.unit_size_bytes,
        device_path: input.device_path.clone(),
    };
    let value = DiskValue {
        status: HwStatus::Up,
        disk_type,
        capacity_units,
        zone_size_units,
        unit_size_bytes: input.unit_size_bytes,
        zone_count,
        device_path: input.device_path.clone(),
    };
    Ok((entry, id, value))
}

/// The disk group `dg_id` of node `node_id`.
pub open spec fn group_of_node(r: Registry, node_id: u64, dg_id: u64) -> Option<int> {
    lists::first_index(r.disk_groups, |g: DiskGroupEntry| g.node_id == node_id && g.id == dg_id)
}

/// The id that an unknown disk group is reported with.
pub open spec fn group_place(node_id: u64, dg_id: u64) -> Seq<char> {
    text::decimal(dg_id as nat) + " on node "@ + text::decimal(node_id as nat)
}

/// The rack of the disk group `dg_id` of node `node_id`.
fn rack_of_group(ctx: &OpContext, node_id: u64, dg_id: u64) -> (r: Result<u64, Error>)
    ensures
        match group_of_node(ctx.records(), node_id, dg_id) {
            Some(i) => r == Ok::<u64, Error>(ctx.records().disk_groups[i].rack_id)
                && ctx.records().disk_group_index(dg_id) is Some,
            None => r matches Err(e) && e.is_not_found("disk_group"@, group_place(node_id, dg_id)),
        },
{
    let ghost p = |g: DiskGroupEntry| g.node_id == node_id && g.id == dg_id;
    let accepts = |g: &DiskGroupEntry| -> (b: bool)
        ensures
            b == (g.node_id == node_id && g.id == dg_id)
    { g.node_id == node_id && g.id == dg_id };
    match lists::position(&ctx.registry.disk_groups, accepts, Ghost(p)) {
        Some(i) => {
            proof {
                let q = |g: DiskGroupEntry| g.id == dg_id;
                lists::lemma_first_index(ctx.records().disk_groups, q);
                assert(q(ctx.records().disk_groups[i as int]));
            }
            Ok(ctx.registry.disk_groups[i].rack_id)
        },
        None => {
            let mut text = decimal_text(dg_id);
            text.append(" on node ");
            text.append(decimal_text(node_id).as_str());
            Err(Error::not_found("disk_group", text))
        },
    }
}

/// Adds a disk. Refuses a disk group that the node does not have, then a disk
/// that is not in order, then an id that is taken.
pub fn add_disk(ctx: &mut OpContext, node_id: u64, dg_id: u64, d: &ReadDiskInput) -> (r: Result<
    DiskEntry,
    Error,
>)
    ensures
        final(ctx).same_setup(*old(ctx)),
        old(ctx).records().well_formed() ==> final(ctx).records().well_formed(),
        r is Err ==> final(ctx).records() == old(ctx).records() && final(ctx).pending@ == old(ctx).pending@,
        match group_of_node(old(ctx).records(), node_id, dg_id) {
            None => r matches Err(e) && e.is_not_found("disk_group"@, group_place(node_id, dg_id)),
            Some(i) => match disk_fault(*d) {
                Some((field, message)) => r matches Err(e) && e.is_validation(field, message),
                None => if old(ctx).records().disk_index(d.input.disk_id@) is Some {
                    r matches Err(e) && e.is_conflict("disk"@, d.input.disk_id@)
                } else {
                    let rack_id = old(ctx).records().disk_groups[i].rack_id;
                    let entry = disk_entry(d.input, rack_id, node_id, dg_id);
                    &&& r == Ok::<DiskEntry, Error>(entry)
                    &&& final(ctx).records() == (Registry {
                        disks: old(ctx).records().disks.push(entry),
                        ..old(ctx).records()
                    })
                    &&& final(ctx).pending@ == old(ctx).followed(
                        seq![disk_update(*d, rack_id, node_id, dg_id)],
                    )
                },
            },
        },
{
    let rack_id: u64 = match rack_of_group(ctx, node_id, dg_id) {
        Ok(x) => x,
        Err(e) => {
            return Err(e);
        },
    };
    let (entry, disk_id, value) = match validate_disk_input(d, dg_id, rack_id, node_id) {
        Ok(x) => x,
        Err(e) => {
            return Err(e);
        },
    };
    match ctx.registry.add_disk(entry.clone()) {
        Err(e) => Err(e),
        Ok(_) => {
            ctx.follow(SysdataUpdate::AddDisk { rack_id, node_id, dg_id, disk_id, value });
            Ok(entry)
        },
    }
}

/// A disk of a batch whose id an earlier one has.
pub open spec fn repeated(ds: Seq<ReadDiskInput>, i: int) -> bool {
    exists|j: int| 0 <= j < i && (#[trigger] ds[j]).input.disk_id@ == ds[i].input.disk_id@
}

/// A disk of a batch that is not in order.
pub open spec fn refused(ds: Seq<ReadDiskInput>, i: int) -> bool {
    repeated(ds, i) || disk_fault(ds[i]) is Some
}

/// The first disk of a batch that is not in order.
pub open spec fn first_refused(ds: Seq<ReadDiskInput>, i: int) -> bool {
    &&& 0 <= i < ds.len()
    &&& refused(ds, i)
    &&& forall|j: int| 0 <= j < i ==> !#[trigger] refused(ds, j)
}

/// Why a disk of a batch is not in order.
pub open spec fn is_refusal(ds: Seq<ReadDiskInput>, i: int, e: Error) -> bool {
    if repeated(ds, i) {
        e.is_conflict("disk"@, "duplicate disk_id within batch: "@ + ds[i].input.disk_id@)
    } else {
        disk_fault(ds[i]) matches Some((field, message)) && e.is_validation(field, message)
    }
}

/// A disk of a batch whose id is taken.
pub open spec fn taken(r: Registry, ds: Seq<ReadDiskInput>, i: int) -> bool {
    r.disk_index(ds[i].input.disk_id@) is Some
}

/// The first disk of a batch whose id is taken.
pub open spec fn first_taken(r: Registry, ds: Seq<ReadDiskInput>, i: int) -> bool {
    &&& 0 <= i < ds.len()
    &&& taken(r, ds, i)
    &&& forall|j: int| 0 <= j < i ==> !#[trigger] taken(r, ds, j)
}

/// Why a batch of disks is not added.
pub open spec fn is_batch_error(
    r: Registry,
    node_id: u64,
    dg_id: u64,
    ds: Seq<ReadDiskInput>,
    e: Error,
) -> bool {
    if group_of_node(r, node_id, dg_id) is None {
        e.is_not_found("disk_group"@, group_place(node_id, dg_id))
    } else {
        ||| exists|i: int| #[trigger] first_refused(ds, i) && is_refusal(ds, i, e)
        ||| {
            &&& forall|i: int| 0 <= i < ds.len() ==> !#[trigger] refused(ds, i)
            &&& exists|i: int| #[trigger]
                first_taken(r, ds, i) && e.is_conflict("disk"@, ds[i].input.disk_id@)
        }
    }
}

/// How the registry records the disks of a batch.
pub open spec fn batch_entries(
    ds: Seq<ReadDiskInput>,
    rack_id: u64,
    node_id: u64,
    dg_id: u64,
) -> Seq<DiskEntry> {
    ds.map_values(|d: ReadDiskInput| disk_entry(d.input, rack_id, node_id, dg_id))
}

/// The changes that follow on a batch.
pub open spec fn batch_updates(
    ds: Seq<ReadDiskInput>,
    rack_id: u64,
    node_id: u64,
    dg_id: u64,
) -> Seq<SysdataUpdate> {
    ds.map_values(|d: ReadDiskInput| disk_update(d, rack_id, node_id, dg_id))
}

/// The part of a batch that was checked: all its disks are in order.
pub open spec fn checked_batch(
    ds: Seq<ReadDiskInput>,
    out: Seq<(DiskEntry, DiskId, DiskValue)>,
    rack_id: u64,
    node_id: u64,
    dg_id: u64,
) -> bool {
    &&& out.len() <= ds.len()
    &&& forall|j: int| 0 <= j < out.len() ==> !#[trigger] refused(ds, j)
    &&& forall|j: int|
        0 <= j < out.len() ==> {
            &&& (#[trigger] out[j]).0 == disk_entry(ds[j].input, rack_id, node_id, dg_id)
            &&& ds[j].id == Ok::<DiskId, String>(out[j].1)
            &&& out[j].2 == disk_value(ds[j].input)
        }
}

/// Checks all disks of a batch.
fn check_batch(ds: &Vec<ReadDiskInput>, rack_id: u64, node_id: u64, dg_id: u64) -> (r: Result<
    Vec<(DiskEntry, DiskId, DiskValue)>,
    Error,
>)
    ensures
        match r {
            Ok(out) => out@.len() == ds@.len() && checked_batch(
                ds@,
                out@,
                rack_id,
                node_id,
                dg_id,
            ),
            Err(e) => exists|i: int| #[trigger] first_refused(ds@, i) && is_refusal(ds@, i, e),
        },
{
    let mut out: Vec<(DiskEntry, DiskId, DiskValue)> = Vec::new();
    let mut i: usize = 0;
    while i < ds.len()
        invariant
            i <= ds@.len(),
            out@.len() == i,
            checked_batch(ds@, out@, rack_id, node_id, dg_id),
        decreases ds@.len() - i,
    {
        let mut j: usize = 0;
        while j < i
            invariant
                j <= i < ds@.len(),
                forall|k: int| 0 <= k < i ==> !#[trigger] refused(ds@, k),
                forall|k: int|
                    0 <= k < j ==> (#[trigger] ds@[k]).input.disk_id@
                        != ds@[i as int].input.disk_id@,
            decreases i - j,
        {
            if ds[j].input.disk_id == ds[i].input.disk_id {
                let mut text = "duplicate disk_id within batch: ".to_owned();
                text.append(ds[i].input.disk_id.as_str());
                let e = Error::conflict("disk", text);
                assert(ds@[j as int].input.disk_id@ == ds@[i as int].input.disk_id@);
                assert(repeated(ds@, i as int));
                assert(first_refused(ds@, i as int) && is_refusal(ds@, i as int, e));
                return Err(e);
            }
            j = j + 1;
        }
        assert(!repeated(ds@, i as int));
        match validate_disk_input(&ds[i], dg_id, rack_id, node_id) {
            Err(e) => {
                assert(first_refused(ds@, i as int) && is_refusal(ds@, i as int, e));
                return Err(e);
            },
            Ok(x) => {
                out.push(x);
            },
        }
        i = i + 1;
    }
    Ok(out)
}

/// A disk that is in neither part of a list has no index in the whole.
proof fn lemma_disk_index_split(r: Registry, more: Seq<DiskEntry>, id: Seq<char>)
    requires
        forall|j: int| 0 <= j < more.len() ==> (#[trigger] more[j]).disk_id@ != id,
    ensures
        (Registry { disks: r.disks + more, ..r }).disk_index(id) is Some <==> r.disk_index(
            id,
        ) is Some,
{
    let p = config::disk_named(id);
    let all = r.disks + more;
    lists::lemma_first_index(r.disks, p);
    lists::lemma_first_index(all, p);
    if let Some(i) = lists::first_index(r.disks, p) {
        assert(p(all[i]));
    }
    if let Some(i) = lists::first_index(all, p) {
        if i >= r.disks.len() {
            assert(all[i] == more[i - r.disks.len()]);
        } else {
            assert(p(r.disks[i]));
        }
    }
}

/// The first disk behind those of the registry is found by its id.
proof fn lemma_disk_index_behind(r: Registry, more: Seq<DiskEntry>)
    requires
        more.len() > 0,
        r.disk_index(more[0].disk_id@) is None,
    ensures
        (Registry { disks: r.disks + more, ..r }).disk_index(more[0].disk_id@) == Some(
            r.disks.len() as int,
        ),
{
    let id = more[0].disk_id@;
    let p = config::disk_named(id);
    let all = r.disks + more;
    lists::lemma_first_index(r.disks, p);
    assert forall|j: int| 0 <= j < r.disks.len() implies !p(#[trigger] all[j]) by {
        assert(!p(r.disks[j]));
    }
    lists::lemma_is_first_index(all, p, r.disks.len() as int);
}

/// Takes the disks that were added out again.
fn roll_back(
    registry: &mut ConsoleConfig,
    added: &Vec<DiskEntry>,
    before: Ghost<Registry>,
)
    requires
        old(registry)@ == (Registry { disks: before@.disks + added@, ..before@ }),
        forall|j: int|
            0 <= j < added@.len() ==> before@.disk_index((#[trigger] added@[j]).disk_id@) is None,
    ensures
        final(registry)@ == before@,
{
    let mut m: usize = 0;
    assert(added@.skip(0) =~= added@);
    while m < added.len()
        invariant
            m <= added@.len(),
            registry@ == (Registry { disks: before@.disks + added@.skip(m as int), ..before@ }),
            forall|j: int|
                0 <= j < added@.len() ==> before@.disk_index((#[trigger] added@[j]).disk_id@)
                    is None,
        decreases added@.len() - m,
    {
        proof {
            assert(added@.skip(m as int)[0] == added@[m as int]);
            lemma_disk_index_behind(before@, added@.skip(m as int));
        }
        let _ = registry.remove_disk(added[m].disk_id.as_str());
        proof {
            let all = before@.disks + added@.skip(m as int);
            assert(all.remove(before@.disks.len() as int) =~= before@.disks + added@.skip(m + 1));
        }
        m = m + 1;
    }
    assert(before@.disks + added@.skip(m as int) =~= before@.disks);
}

/// Adds all disks of a batch, or none. Refuses a disk group that the node does
/// not have, then the first disk that is not in order, then the first whose id
/// is taken.
pub fn add_disks_batch(
    ctx: &mut OpContext,
    node_id: u64,
    dg_id: u64,
    ds: &Vec<ReadDiskInput>,
) -> (r: Result<Vec<DiskEntry>, Error>)
    ensures
        final(ctx).same_setup(*old(ctx)),
        old(ctx).records().well_formed() ==> final(ctx).records().well_formed(),
        match r {
            Err(e) => {
                &&& final(ctx).records() == old(ctx).records()
                &&& final(ctx).pending@ == old(ctx).pending@
                &&& is_batch_error(old(ctx).records(), node_id, dg_id, ds@, e)
            },
            Ok(entries) => {
                &&& forall|i: int| 0 <= i < ds@.len() ==> !#[trigger] refused(ds@, i)
                &&& forall|i: int|
                    0 <= i < ds@.len() ==> !#[trigger] taken(old(ctx).records(), ds@, i)
                &&& group_of_node(old(ctx).records(), node_id, dg_id) matches Some(g) && {
                    let rack_id = old(ctx).records().disk_groups[g].rack_id;
                    &&& entries@ == batch_entries(ds@, rack_id, node_id, dg_id)
                    &&& final(ctx).records() == (Registry {
                        disks: old(ctx).records().disks + entries@,
                        ..old(ctx).records()
                    })
                    &&& final(ctx).pending@ == old(ctx).followed(
                        batch_updates(ds@, rack_id, node_id, dg_id),
                    )
                }
            },
        },
{
    let ghost before = ctx.records();
    let rack_id: u64 = match rack_of_group(ctx, node_id, dg_id) {
        Ok(x) => x,
        Err(e) => {
            return Err(e);
        },
    };
    let checked = match check_batch(ds, rack_id, node_id, dg_id) {
        Ok(x) => x,
        Err(e) => {
            return Err(e);
        },
    };
    let mut added: Vec<DiskEntry> = Vec::new();
    let mut k: usize = 0;
    assert(before.disks + added@ =~= before.disks);
    while k < checked.len()
        invariant
            k <= checked@.len() == ds@.len(),
            checked_batch(ds@, checked@, rack_id, node_id, dg_id),
            before == old(ctx).records(),
            before.disk_group_index(dg_id) is Some,
            group_of_node(before, node_id, dg_id) is Some,
            ctx.same_setup(*old(ctx)),
            ctx.pending@ == old(ctx).pending@,
            ctx.records() == (Registry { disks: before.disks + added@, ..before }),
            before.well_formed() ==> ctx.records().well_formed(),
            added@ == batch_entries(ds@.take(k as int), rack_id, node_id, dg_id),
            forall|j: int| 0 <= j < k ==> !#[trigger] taken(before, ds@, j),
        decreases checked@.len() - k,
    {
        let ghost id = ds@[k as int].input.disk_id@;
        proof {
            assert(checked@[k as int].0 == disk_entry(
                ds@[k as int].input,
                rack_id,
                node_id,
                dg_id,
            ));
            assert forall|j: int| 0 <= j < added@.len() implies (#[trigger] added@[j]).disk_id@
                != id by {
                assert(added@[j].disk_id == ds@[j].input.disk_id);
                assert(!refused(ds@, k as int));
            }
            lemma_disk_index_split(before, added@, id);
        }
        match ctx.registry.add_disk(checked[k].0.clone()) {
            Err(e) => {
                assert(taken(before, ds@, k as int));
                assert(first_taken(before, ds@, k as int));
                proof {
                    assert forall|j: int| 0 <= j < added@.len() implies before.disk_index(
                        (#[trigger] added@[j]).disk_id@,
                    ) is None by {
                        assert(added@[j].disk_id == ds@[j].input.disk_id);
                        assert(!taken(before, ds@, j));
                    }
                }
                roll_back(&mut ctx.registry, &added, Ghost(before));
                return Err(e);
            },
            Ok(_) => {},
        }
        let ghost earlier = added@;
        added.push(checked[k].0.clone());
        assert(added@ =~= batch_entries(ds@.take(k + 1), rack_id, node_id, dg_id));
        assert((before.disks + earlier).push(checked@[k as int].0) =~= before.disks + added@);
        assert(!taken(before, ds@, k as int));
        k = k + 1;
    }
    assert(ds@.take(k as int) =~= ds@);
    let ghost setup = *ctx;
    let ghost all = batch_updates(ds@, rack_id, node_id, dg_id);
    let ghost seen = checked@;
    assert(setup.followed(all.take(0)) =~= setup.pending@);
    for x in it: checked
        invariant
            it.seq() == seen,
            seen.len() == ds@.len(),
            checked_batch(ds@, seen, rack_id, node_id, dg_id),
            all == batch_updates(ds@, rack_id, node_id, dg_id),
            ctx.same_setup(setup),
            ctx.registry == setup.registry,
            ctx.pending@ == setup.followed(all.take(it.index() as int)),
    {
        let ghost i = it.index() as int;
        let ghost earlier = *ctx;
        let (_, disk_id, value) = x;
        let update = SysdataUpdate::AddDisk { rack_id, node_id, dg_id, disk_id, value };
        assert(seen[i].2 == disk_value(ds@[i].input));
        assert(update == all[i]);
        ctx.follow(update);
        assert(earlier.followed(seq![update]) =~= setup.followed(all.take(i + 1)));
    }
    assert(all.take(ds@.len() as int) =~= all);
    Ok(added)
}

/// The ids of a disk group's disks.
pub open spec fn ids_in_group(disks: Seq<DiskEntry>, dg_id: u64) -> Seq<Seq<char>> {
    disks.filter(|d: DiskEntry| d.disk_group_id == dg_id).map_values(|d: DiskEntry| d.disk_id@)
}

/// The disks that are left once the first disk with each of the ids was taken
/// out, in turn, and the first id that no disk had any more.
pub open spec fn taken_out(disks: Seq<DiskEntry>, ids: Seq<Seq<char>>) -> (
    Seq<DiskEntry>,
    Option<Seq<char>>,
)
    decreases ids.len(),
{
    if ids.len() == 0 {
        (disks, None)
    } else {
        match lists::first_index(disks, config::disk_named(ids[0])) {
            Some(i) => taken_out(disks.remove(i), ids.drop_first()),
            None => (disks, Some(ids[0])),
        }
    }
}

/// Where no two disks share an id, taking out the ids of a group leaves the
/// disks of all other groups.
proof fn lemma_group_taken_out(disks: Seq<DiskEntry>, dg_id: u64)
    requires
        ordered::unique_keys(disks),
    ensures
        taken_out(disks, ids_in_group(disks, dg_id)) == (
            disks.filter(|d: DiskEntry| d.disk_group_id != dg_id),
            None::<Seq<char>>,
        ),
    decreases disks.filter(|d: DiskEntry| d.disk_group_id == dg_id).len(),
{
    let p = |d: DiskEntry| d.disk_group_id == dg_id;
    let q = |d: DiskEntry| d.disk_group_id != dg_id;
    let f = |d: DiskEntry| d.disk_id@;
    lists::lemma_first_index(disks, p);
    match lists::first_index(disks, p) {
        None => {
            lemma_filter_all_or_none(disks, q, p);
            assert(ids_in_group(disks, dg_id) =~= Seq::<Seq<char>>::empty());
        },
        Some(i) => {
            let a = disks.take(i);
            let x = disks[i];
            let b = disks.skip(i + 1);
            let rest = disks.remove(i);
            assert(disks =~= a + (seq![x] + b));
            assert(rest =~= a + b);
            lemma_filter_all_or_none(a, q, p);
            Seq::filter_distributes_over_add(a, seq![x] + b, p);
            Seq::filter_distributes_over_add(seq![x], b, p);
            Seq::filter_distributes_over_add(a, b, p);
            Seq::filter_distributes_over_add(a, seq![x] + b, q);
            Seq::filter_distributes_over_add(seq![x], b, q);
            Seq::filter_distributes_over_add(a, b, q);
            reveal_with_fuel(Seq::filter, 2);
            assert(seq![x].drop_last() =~= Seq::<DiskEntry>::empty());
            assert(seq![x].filter(p) =~= seq![x]);
            assert(seq![x].filter(q) =~= Seq::<DiskEntry>::empty());
            assert(disks.filter(p) =~= seq![x] + rest.filter(p));
            assert(disks.filter(q) =~= rest.filter(q));
            let ids = ids_in_group(disks, dg_id);
            assert(ids[0] == x.disk_id@);
            assert(ids.drop_first() =~= ids_in_group(rest, dg_id));
            let named = config::disk_named(x.disk_id@);
            assert forall|j: int| 0 <= j < i implies !named(#[trigger] disks[j]) by {
                if disks[j].disk_id@ == x.disk_id@ {
                    assert(disks[j].key() == disks[i].key());
                }
            }
            lists::lemma_is_first_index(disks, named, i);
            ordered::lemma_remove_unique(disks, i);
            lemma_group_taken_out(rest, dg_id);
        },
    }
}

/// Where no entry is left out, thinning changes nothing, and the opposite
/// leaves nothing.
proof fn lemma_filter_all_or_none(
    s: Seq<DiskEntry>,
    q: spec_fn(DiskEntry) -> bool,
    p: spec_fn(DiskEntry) -> bool,
)
    requires
        forall|j: int| 0 <= j < s.len() ==> !p(#[trigger] s[j]),
        forall|d: DiskEntry| #[trigger] q(d) == !p(d),
    ensures
        s.filter(q) == s,
        s.filter(p) == Seq::<DiskEntry>::empty(),
    decreases s.len(),
{
    reveal(Seq::filter);
    if s.len() > 0 {
        lemma_filter_all_or_none(s.drop_last(), q, p);
        assert(!p(s[s.len() - 1]));
        assert(s.drop_last().push(s.last()) =~= s);
    } else {
        assert(s =~= Seq::<DiskEntry>::empty());
    }
}

fn disk_ids_in_group(ctx: &OpContext, dg_id: u64) -> (ids: Vec<String>)
    ensures
        ids@.map_values(|t: String| t@) == ids_in_group(ctx.records().disks, dg_id),
{
    let ghost f = |d: DiskEntry| d.disk_id@;
    let ghost g = |t: String| t@;
    let ghost h = |x: &DiskEntry| *x;
    let found = ctx.registry.disks_in_group(dg_id);
    let mut ids: Vec<String> = Vec::new();
    let mut i: usize = 0;
    while i < found.len()
        invariant
            i <= found@.len(),
            f == (|d: DiskEntry| d.disk_id@),
            g == (|t: String| t@),
            h == (|x: &DiskEntry| *x),
            ids@.map_values(g) == found@.map_values(h).take(i as int).map_values(f),
        decreases found@.len() - i,
    {
        let t = found[i].disk_id.clone();
        proof {
            let all = found@.map_values(h);
            assert(all.take(i + 1).map_values(f) =~= all.take(i as int).map_values(f).push(
                f(all[i as int]),
            ));
            assert(ids@.push(t).map_values(g) =~= ids@.map_values(g).push(t@));
        }
        ids.push(t);
        i = i + 1;
    }
    assert(found@.map_values(h).take(i as int) =~= found@.map_values(h));
    ids
}

/// Removes a disk group with its disks, which are found by their ids. Which
/// node it is on is not asked.
pub fn remove_disk_group(ctx: &mut OpContext, node_id: u64, dg_id: u64) -> (r: Result<(), Error>)
    ensures
        final(ctx).same_setup(*old(ctx)),
        old(ctx).records().well_formed() ==> final(ctx).records().well_formed(),
        match old(ctx).records().disk_group_index(dg_id) {
            None => {
                &&& final(ctx).records() == old(ctx).records()
                &&& final(ctx).pending@ == old(ctx).pending@
                &&& r matches Err(e) && e.is_not_found("disk_group"@, text::decimal(dg_id as nat))
            },
            Some(i) => {
                let (left, missed) = taken_out(
                    old(ctx).records().disks,
                    ids_in_group(old(ctx).records().disks, dg_id),
                );
                let in_group = |d: DiskEntry| d.disk_group_id == dg_id;
                if missed is Some {
                    &&& final(ctx).records() == (Registry { disks: left, ..old(ctx).records() })
                    &&& final(ctx).pending@ == old(ctx).pending@
                    &&& r matches Err(e) && e.is_not_found("disk"@, missed->0)
                } else if lists::first_index(left, in_group) is Some {
                    &&& final(ctx).records() == (Registry { disks: left, ..old(ctx).records() })
                    &&& final(ctx).pending@ == old(ctx).pending@
                    &&& r matches Err(e) && e.is_conflict(
                        "disk_group"@,
                        text::decimal(dg_id as nat) + ": disk_group still has disks"@,
                    )
                } else {
                    &&& r is Ok
                    &&& final(ctx).records() == (Registry {
                        disk_groups: old(ctx).records().disk_groups.remove(i),
                        disks: left,
                        ..old(ctx).records()
                    })
                    &&& final(ctx).pending@ == old(ctx).followed(
                        seq![
                            SysdataUpdate::RemoveDiskGroup {
                                rack_id: old(ctx).records().disk_groups[i].rack_id,
                                node_id,
                                dg_id,
                            },
                        ],
                    )
                }
            },
        },
        ordered::unique_keys(old(ctx).records().disks) && old(ctx).records().disk_group_index(
            dg_id,
        ) is Some ==> r is Ok && final(ctx).records().disks == old(ctx).records().disks.filter(
            |d: DiskEntry| d.disk_group_id != dg_id,
        ),
{
    let ghost before = ctx.records();
    let rack_id: u64 = match ctx.registry.disk_group(dg_id) {
        Some(g) => g.rack_id,
        None => {
            return Err(Error::not_found("disk_group", decimal_text(dg_id)));
        },
    };
    let ids = disk_ids_in_group(ctx, dg_id);
    let ghost all = ids_in_group(before.disks, dg_id);
    let ghost g = |t: String| t@;
    proof {
        let in_group = |d: DiskEntry| d.disk_group_id == dg_id;
        if ordered::unique_keys(before.disks) {
            let elsewhere = |d: DiskEntry| d.disk_group_id != dg_id;
            lemma_group_taken_out(before.disks, dg_id);
            let kept = before.disks.filter(elsewhere);
            assert forall|j: int| 0 <= j < kept.len() implies !in_group(#[trigger] kept[j]) by {
                before.disks.lemma_filter_pred(elsewhere, j);
            }
            lists::lemma_no_first_index(kept, in_group);
        }
        assert(all.skip(0) =~= all);
    }
    let mut k: usize = 0;
    while k < ids.len()
        invariant
            k <= ids@.len(),
            g == (|t: String| t@),
            ids@.map_values(g) == all,
            all == ids_in_group(before.disks, dg_id),
            ctx.same_setup(*old(ctx)),
            ctx.pending@ == old(ctx).pending@,
            before == old(ctx).records(),
            ctx.records() == (Registry { disks: ctx.records().disks, ..before }),
            taken_out(ctx.records().disks, all.skip(k as int)) == taken_out(before.disks, all),
            before.well_formed() ==> ctx.records().well_formed(),
            before.disk_group_index(dg_id) is Some,
            ordered::unique_keys(before.disks) ==> taken_out(before.disks, all).1 is None,
        decreases ids@.len() - k,
    {
        proof {
            let rest = all.skip(k as int);
            assert(all[k as int] == g(ids@[k as int]));
            assert(rest[0] == ids@[k as int]@);
            assert(rest.drop_first() =~= all.skip(k + 1));
        }
        match ctx.registry.remove_disk(ids[k].as_str()) {
            Err(e) => {
                return Err(e);
            },
            Ok(_) => {},
        }
        k = k + 1;
    }
    assert(all.skip(k as int) =~= Seq::<Seq<char>>::empty());
    match ctx.registry.remove_disk_group(dg_id) {
        Err(e) => Err(e),
        Ok(_) => {
            ctx.follow(SysdataUpdate::RemoveDiskGroup { rack_id, node_id, dg_id });
            Ok(())
        },
    }
}

/// The disk with the id `disk_id` in the disk group `dg_id` of node `node_id`.
pub open spec fn disk_of_group(
    r: Registry,
    node_id: u64,
    dg_id: u64,
    disk_id: Seq<char>,
) -> Option<int> {
    lists::first_index(
        r.disks,
        |d: DiskEntry|
            d.node_id == node_id && d.disk_group_id == dg_id && d.disk_id@ == disk_id,
    )
}

fn disk_position(ctx: &OpContext, node_id: u64, dg_id: u64, disk_id: &str) -> (r: Result<
    usize,
    Error,
>)
    ensures
        match disk_of_group(ctx.records(), node_id, dg_id, disk_id@) {
            Some(i) => r matches Ok(k) && k == i && k < ctx.records().disks.len()
                && ctx.records().disk_index(disk_id@) is Some,
            None => r matches Err(e) && e.is_not_found("disk"@, disk_id@),
        },
{
    let ghost p = |d: DiskEntry|
        d.node_id == node_id && d.disk_group_id == dg_id && d.disk_id@ == disk_id@;
    let accepts = |d: &DiskEntry| -> (b: bool)
        ensures
            b == (d.node_id == node_id && d.disk_group_id == dg_id && d.disk_id@ == disk_id@)
    { d.node_id == node_id && d.disk_group_id == dg_id && text_eq(d.disk_id.as_str(), disk_id) };
    match lists::position(&ctx.registry.disks, accepts, Ghost(p)) {
        Some(i) => {
            proof {
                let q = config::disk_named(disk_id@);
                lists::lemma_first_index(ctx.records().disks, q);
                assert(q(ctx.records().disks[i as int]));
            }
            Ok(i)
        },
        None => Err(Error::not_found("disk", disk_id.to_owned())),
    }
}

/// Removes a disk. `id` is what its id reads as; where it does not read as a
/// number, nothing follows.
pub fn remove_disk(
    ctx: &mut OpContext,
    node_id: u64,
    dg_id: u64,
    disk_id: &str,
    id: Option<DiskId>,
) -> (r: Result<DiskEntry, Error>)
    ensures
        final(ctx).same_setup(*old(ctx)),
        old(ctx).records().well_formed() ==> final(ctx).records().well_formed(),
        match disk_of_group(old(ctx).records(), node_id, dg_id, disk_id@) {
            None => {
                &&& final(ctx).records() == old(ctx).records()
                &&& final(ctx).pending@ == old(ctx).pending@
                &&& r matches Err(e) && e.is_not_found("disk"@, disk_id@)
            },
            Some(i) => {
                let entry = old(ctx).records().disks[i];
                &&& r == Ok::<DiskEntry, Error>(entry)
                &&& final(ctx).records() == (Registry {
                    disks: old(ctx).records().disks.remove(
                        old(ctx).records().disk_index(disk_id@)->0,
                    ),
                    ..old(ctx).records()
                })
                &&& final(ctx).pending@ == (match id {
                    Some(x) => old(ctx).followed(
                        seq![
                            SysdataUpdate::RemoveDisk {
                                rack_id: entry.rack_id,
                                node_id,
                                dg_id,
                                disk_id: x,
                            },
                        ],
                    ),
                    None => old(ctx).pending@,
                })
            },
        },
{
    let entry = match disk_position(ctx, node_id, dg_id, disk_id) {
        Ok(i) => ctx.registry.disks[i].clone(),
        Err(e) => {
            return Err(e);
        },
    };
    match ctx.registry.remove_disk(disk_id) {
        Err(e) => Err(e),
        Ok(_) => {
            if let Some(x) = id {
                ctx.follow(
                    SysdataUpdate::RemoveDisk {
                        rack_id: entry.rack_id,
                        node_id,
                        dg_id,
                        disk_id: x,
                    },
                );
            }
            Ok(entry)
        },
    }
}

/// The disks of a disk group of a node.
pub fn list_disks(ctx: &OpContext, node_id: u64, dg_id: u64) -> (r: Vec<DiskEntry>)
    ensures
        r@ == ctx.records().disks.filter(
            |d: DiskEntry| d.node_id == node_id && d.disk_group_id == dg_id,
        ),
{
    let accepts = |d: &DiskEntry| -> (b: bool)
        ensures
            b == (d.node_id == node_id && d.disk_group_id == dg_id)
    { d.node_id == node_id && d.disk_group_id == dg_id };
    lists::select(
        &ctx.registry.disks,
        accepts,
        Ghost(|d: DiskEntry| d.node_id == node_id && d.disk_group_id == dg_id),
    )
}

/// Lets the cluster's metadata have another status for a disk. `id` is what
/// its id reads as; where it does not read as a number, nothing follows.
pub fn set_disk_status(
    ctx: &mut OpContext,
    node_id: u64,
    dg_id: u64,
    disk_id: &str,
    id: Option<DiskId>,
    status: HwStatus,
) -> (r: Result<(), Error>)
    ensures
        final(ctx).same_setup(*old(ctx)),
        final(ctx).registry == old(ctx).registry,
        match disk_of_group(old(ctx).records(), node_id, dg_id, disk_id@) {
            None => final(ctx).pending@ == old(ctx).pending@ && (r matches Err(e)
                && e.is_not_found("disk"@, disk_id@)),
            Some(i) => r is Ok && final(ctx).pending@ == (match id {
                Some(x) => old(ctx).followed(
                    seq![
                        SysdataUpdate::SetDiskStatus {
                            rack_id: old(ctx).records().disks[i].rack_id,
                            node_id,
                            dg_id,
                            disk_id: x,
                            status,
                        },
                    ],
                ),
                None => old(ctx).pending@,
            }),
        },
{
    let rack_id: u64 = match disk_position(ctx, node_id, dg_id, disk_id) {
        Ok(i) => ctx.registry.disks[i].rack_id,
        Err(e) => {
            return Err(e);
        },
    };
    if let Some(x) = id {
        ctx.follow(SysdataUpdate::SetDiskStatus { rack_id, node_id, dg_id, disk_id: x, status });
    }
    Ok(())
}

/// Lets the cluster's metadata have another status for a disk group.
pub fn set_disk_group_status(
    ctx: &mut OpContext,
    node_id: u64,
    dg_id: u64,
    status: HwStatus,
) -> (r: Result<(), Error>)
    ensures
        final(ctx).same_setup(*old(ctx)),
        final(ctx).registry == old(ctx).registry,
        match old(ctx).records().disk_group_index(dg_id) {
            Some(i) if old(ctx).records().disk_groups[i].node_id == node_id => r is Ok
                && final(ctx).pending@ == old(ctx).followed(
                seq![
                    SysdataUpdate::SetDiskGroupStatus {
                        rack_id: old(ctx).records().disk_groups[i].rack_id,
                        node_id,
                        dg_id,
                        status,
                    },
                ],
            ),
            _ => final(ctx).pending@ == old(ctx).pending@ && (r matches Err(e) && e.is_not_found(
                "disk_group"@,
                text::decimal(dg_id as nat),
            )),
        },
{
    let rack: Option<u64> = match ctx.registry.disk_group(dg_id) {
        Some(g) => if g.node_id == node_id {
            Some(g.rack_id)
        } else {
            None
        },
        None => None,
    };
    match rack {
        Some(rack_id) => {
            ctx.follow(SysdataUpdate::SetDiskGroupStatus { rack_id, node_id, dg_id, status });
            Ok(())
        },
        None => Err(Error::not_found("disk_group", decimal_text(dg_id))),
    }
}

/// A disk type has the names that operators write: `Ssd` and `BLOCK_SSD` are
/// block SSDs, `Hdd` and `BLOCK_HDD` block hard disks, `ZONE_SSD` and `SMR_HDD`
/// the zoned kinds. No other name is known, and the four types are told apart.
pub proof fn lemma_disk_types_by_name(name: Seq<char>)
    ensures
        named_disk_type("Ssd"@) == Some(DiskType::BlockSsd),
        named_disk_type("BLOCK_SSD"@) == Some(DiskType::BlockSsd),
        named_disk_type("Hdd"@) == Some(DiskType::BlockHdd),
        named_disk_type("BLOCK_HDD"@) == Some(DiskType::BlockHdd),
        named_disk_type("ZONE_SSD"@) == Some(DiskType::ZoneSsd),
        named_disk_type("SMR_HDD"@) == Some(DiskType::SmrHdd),
        named_disk_type(name) is Some <==> name == "Ssd"@ || name == "BLOCK_SSD"@ || name == "Hdd"@
            || name == "BLOCK_HDD"@ || name == "ZONE_SSD"@ || name == "SMR_HDD"@,
        DiskType::BlockSsd != DiskType::BlockHdd,
        DiskType::BlockSsd != DiskType::ZoneSsd,
        DiskType::BlockSsd != DiskType::SmrHdd,
        DiskType::BlockHdd != DiskType::ZoneSsd,
        DiskType::BlockHdd != DiskType::SmrHdd,
        DiskType::ZoneSsd != DiskType::SmrHdd,
{
    reveal_strlit("Ssd");
    reveal_strlit("BLOCK_SSD");
    reveal_strlit("Hdd");
    reveal_strlit("BLOCK_HDD");
    reveal_strlit("ZONE_SSD");
    reveal_strlit("SMR_HDD");
    assert("Ssd"@[0] == 'S' && "Hdd"@[0] == 'H');
    assert("BLOCK_SSD"@[6] == 'S' && "BLOCK_HDD"@[6] == 'H');
    assert("ZONE_SSD"@.len() == 8 && "SMR_HDD"@.len() == 7);
    assert("Hdd"@.len() == 3 && "BLOCK_HDD"@.len() == 9);
    assert("Ssd"@.len() == 3 && "BLOCK_SSD"@.len() == 9);
}

/// An added disk reaches the cluster's metadata under the ids of its place and
/// its own, as up, with the type of its name, its path and its unit size.
pub proof fn lemma_added_disk_reaches_metadata(
    d: ReadDiskInput,
    rack_id: u64,
    node_id: u64,
    dg_id: u64,
)
    requires
        disk_fault(d) is None,
    ensures
        disk_update(d, rack_id, node_id, dg_id) matches SysdataUpdate::AddDisk {
            rack_id: r,
            node_id: n,
            dg_id: g,
            disk_id,
            value,
        } && {
            let name = d.input.disk_type@;
            &&& r == rack_id && n == node_id && g == dg_id
            &&& d.id == Ok::<DiskId, String>(disk_id)
            &&& value.status is Up
            &&& name == "Ssd"@ || name == "BLOCK_SSD"@ <==> value.disk_type == DiskType::BlockSsd
            &&& name == "Hdd"@ || name == "BLOCK_HDD"@ <==> value.disk_type == DiskType::BlockHdd
            &&& name == "ZONE_SSD"@ <==> value.disk_type == DiskType::ZoneSsd
            &&& name == "SMR_HDD"@ <==> value.disk_type == DiskType::SmrHdd
            &&& value.unit_size_bytes == d.input.unit_size_bytes
            &&& value.device_path@ == d.input.device_path@
        },
{
    lemma_disk_types_by_name(d.input.disk_type@);
}

/// An added disk is measured in units: as many as fit into its capacity, a
/// whole number of them to a zone, and as many zones as fit into its capacity,
/// as far as 32 bits go.
pub proof fn lemma_disk_measured_in_units(d: ReadDiskInput)
    requires
        disk_fault(d) is None,
    ensures
        ({
            let input = d.input;
            let unit = input.unit_size_bytes as int;
            let zone = input.zone_size_bytes as int;
            let capacity = input.capacity_bytes as int;
            let v = disk_value(input);
            &&& v.capacity_units * unit <= capacity < (v.capacity_units + 1) * unit
            &&& v.zone_size_units * unit == zone
            &&& v.zone_count >= 1
            &&& v.zone_count * zone <= capacity
            &&& v.zone_count < u32::MAX ==> capacity < (v.zone_count + 1) * zone
        }),
{
    let input = d.input;
    let unit = input.unit_size_bytes as int;
    let zone = input.zone_size_bytes as int;
    let capacity = input.capacity_bytes as int;
    let per = zone / unit;
    lemma_whole_zones(input.zone_size_bytes, input.unit_size_bytes as u64);
    vstd::arithmetic::div_mod::lemma_fundamental_div_mod(zone, unit);
    assert(per * unit == zone) by (nonlinear_arith)
        requires
            zone == unit * per,
    ;
    vstd::arithmetic::div_mod::lemma_div_denominator(capacity, unit, per);
    assert(unit * per == zone);
    let n = capacity / zone;
    assert((capacity / unit) / per == n);
    assert((capacity / unit) * unit <= capacity < (capacity / unit + 1) * unit) by (nonlinear_arith)
        requires
            unit > 0,
    ;
    assert(n * zone <= capacity < (n + 1) * zone) by (nonlinear_arith)
        requires
            zone > 0,
            n == capacity / zone,
    ;
    assert(n >= 1) by (nonlinear_arith)
        requires
            capacity >= zone,
            capacity < (n + 1) * zone,
            zone > 0,
    ;
    let z = zone_count(input);
    assert(z * zone <= n * zone) by (nonlinear_arith)
        requires
            z <= n,
            zone > 0,
    ;
}

/// The registry records a disk as it was described, with the ids of its place.
pub proof fn lemma_disk_recorded_as_described(
    input: AddDiskInput,
    rack_id: u64,
    node_id: u64,
    dg_id: u64,
)
    ensures
        disk_entry(input, rack_id, node_id, dg_id).disk_id@ == input.disk_id@,
        disk_entry(input, rack_id, node_id, dg_id).disk_type@ == input.disk_type@,
        disk_entry(input, rack_id, node_id, dg_id).device_path@ == input.device_path@,
        disk_entry(input, rack_id, node_id, dg_id).rack_id == rack_id,
        disk_entry(input, rack_id, node_id, dg_id).node_id == node_id,
        disk_entry(input, rack_id, node_id, dg_id).disk_group_id == dg_id,
        disk_entry(input, rack_id, node_id, dg_id).capacity_bytes == input.capacity_bytes,
        disk_entry(input, rack_id, node_id, dg_id).zone_size_bytes == input.zone_size_bytes,
        disk_entry(input, rack_id, node_id, dg_id).unit_size_bytes == input.unit_size_bytes,
{
}

/// A disk is in order just where its id can be read, its sizes are not 0, a
/// zone is a whole number of units and no larger than the disk, and its type
/// is known.
pub proof fn lemma_disk_in_order(d: ReadDiskInput)
    ensures
        disk_fault(d) is None <==> {
            let i = d.input;
            let t = i.disk_type@;
            &&& d.id is Ok
            &&& i.unit_size_bytes > 0
            &&& i.zone_size_bytes > 0
            &&& i.zone_size_bytes as int % i.unit_size_bytes as int == 0
            &&& i.zone_size_bytes <= i.capacity_bytes
            &&& t == "Ssd"@ || t == "BLOCK_SSD"@ || t == "Hdd"@ || t == "BLOCK_HDD"@ || t
                == "ZONE_SSD"@ || t == "SMR_HDD"@
        },
{
    lemma_disk_types_by_name(d.input.disk_type@);
}

/// A disk that is not in order is complained about under the first field that
/// is at fault, with the disk's id in the message.
pub proof fn lemma_disk_complaints(d: ReadDiskInput)
    ensures
        ({
            let i = d.input;
            let id = i.disk_id@;
            let unit = i.unit_size_bytes as int;
            let zone = i.zone_size_bytes as int;
            let unread = d.id is Err;
            let empty = unit == 0 || zone == 0;
            let uneven = zone % unit != 0;
            let small = i.capacity_bytes < zone;
            &&& unread ==> disk_fault(d) == Some(
                ("disk_id"@, "invalid `disk_id` format for "@ + id + ": "@ + d.id->Err_0@),
            )
            &&& !unread && empty ==> disk_fault(d) == Some(
                (
                    "unit_size_bytes"@,
                    "disk "@ + id + ": unit_size_bytes and zone_size_bytes must be non-zero"@,
                ),
            )
            &&& !unread && !empty && uneven ==> disk_fault(d) == Some(
                (
                    "zone_size_bytes"@,
                    "disk "@ + id + ": zone_size_bytes must be a multiple of unit_size_bytes"@,
                ),
            )
            &&& !unread && !empty && !uneven && small ==> disk_fault(d) == Some(
                (
                    "capacity_bytes"@,
                    "disk "@ + id + ": capacity_bytes must be >= zone_size_bytes"@,
                ),
            )
            &&& !unread && !empty && !uneven && !small && disk_fault(d) is Some ==> disk_fault(d)
                == Some(
                ("disk_type"@, "disk "@ + id + ": unknown `disk_type`: "@ + i.disk_type@),
            )
        }),
{
}

/// A disk group of a node is one that is recorded under both ids; without one
/// it is reported by both.
pub proof fn lemma_group_of_node(r: Registry, node_id: u64, dg_id: u64)
    ensures
        match group_of_node(r, node_id, dg_id) {
            Some(i) => 0 <= i < r.disk_groups.len() && r.disk_groups[i].node_id == node_id
                && r.disk_groups[i].id == dg_id,
            None => forall|i: int|
                0 <= i < r.disk_groups.len() ==> (#[trigger] r.disk_groups[i]).node_id != node_id
                    || r.disk_groups[i].id != dg_id,
        },
        group_place(node_id, dg_id) == text::decimal(dg_id as nat) + " on node "@ + text::decimal(
            node_id as nat,
        ),
{
    let p = |g: DiskGroupEntry| g.node_id == node_id && g.id == dg_id;
    lists::lemma_first_index(r.disk_groups, p);
    if group_of_node(r, node_id, dg_id) is None {
        assert forall|i: int| 0 <= i < r.disk_groups.len() implies (
        #[trigger] r.disk_groups[i]).node_id != node_id || r.disk_groups[i].id != dg_id by {
            assert(!p(r.disk_groups[i]));
        }
    }
}

spec fn disk_at(node_id: u64, dg_id: u64, disk_id: Seq<char>) -> spec_fn(DiskEntry) -> bool {
    |d: DiskEntry| d.node_id == node_id && d.disk_group_id == dg_id && d.disk_id@ == disk_id
}

/// A disk of a disk group is one that is recorded under all three ids.
pub proof fn lemma_disk_of_group(r: Registry, node_id: u64, dg_id: u64, disk_id: Seq<char>)
    ensures
        match disk_of_group(r, node_id, dg_id, disk_id) {
            Some(i) => 0 <= i < r.disks.len() && r.disks[i].node_id == node_id
                && r.disks[i].disk_group_id == dg_id && r.disks[i].disk_id@ == disk_id,
            None => forall|i: int|
                0 <= i < r.disks.len() ==> (#[trigger] r.disks[i]).node_id != node_id
                    || r.disks[i].disk_group_id != dg_id || r.disks[i].disk_id@ != disk_id,
        },
{
    let p = disk_at(node_id, dg_id, disk_id);
    lists::lemma_first_index(r.disks, p);
    if disk_of_group(r, node_id, dg_id, disk_id) is None {
        assert forall|i: int| 0 <= i < r.disks.len() implies (#[trigger] r.disks[i]).node_id
            != node_id || r.disks[i].disk_group_id != dg_id || r.disks[i].disk_id@ != disk_id by {
            assert(!p(r.disks[i]));
        }
    }
}

/// A disk of a batch is refused where an earlier one has its id, whatever else
/// may be wrong with it, and otherwise where something is wrong with it.
pub proof fn lemma_batch_refusals(ds: Seq<ReadDiskInput>, i: int, j: int, e: Error)
    requires
        0 <= j < i < ds.len(),
    ensures
        ds[j].input.disk_id@ == ds[i].input.disk_id@ ==> {
            &&& refused(ds, i)
            &&& is_refusal(ds, i, e) <==> e.is_conflict(
                "disk"@,
                "duplicate disk_id within batch: "@ + ds[i].input.disk_id@,
            )
        },
        (forall|k: int| 0 <= k < i ==> (#[trigger] ds[k]).input.disk_id@ != ds[i].input.disk_id@)
            ==> {
            &&& refused(ds, i) <==> disk_fault(ds[i]) is Some
            &&& disk_fault(ds[i]) matches Some((field, message)) ==> (is_refusal(ds, i, e)
                <==> e.is_validation(field, message))
        },
{
}

/// The first disk of a batch is refused just where something is wrong with it.
pub proof fn lemma_first_of_batch(ds: Seq<ReadDiskInput>, e: Error)
    requires
        ds.len() > 0,
    ensures
        refused(ds, 0) <==> disk_fault(ds[0]) is Some,
        refused(ds, 0) ==> first_refused(ds, 0),
{
}

/// A batch that is not added is answered for its place before its disks, for
/// the first disk that is not in order before ids that are taken, and for the
/// first id that is taken.
pub proof fn lemma_batch_errors(
    r: Registry,
    node_id: u64,
    dg_id: u64,
    ds: Seq<ReadDiskInput>,
    e: Error,
)
    requires
        is_batch_error(r, node_id, dg_id, ds, e),
    ensures
        group_of_node(r, node_id, dg_id) is None ==> e.is_not_found(
            "disk_group"@,
            text::decimal(dg_id as nat) + " on node "@ + text::decimal(node_id as nat),
        ),
        group_of_node(r, node_id, dg_id) is Some ==> exists|i: int|
            {
                &&& 0 <= i < ds.len()
                &&& ({
                    ||| refused(ds, i) && is_refusal(ds, i, e)
                    ||| r.disk_index((#[trigger] ds[i]).input.disk_id@) is Some && e.is_conflict(
                        "disk"@,
                        ds[i].input.disk_id@,
                    ) && forall|j: int| 0 <= j < ds.len() ==> !#[trigger] refused(ds, j)
                })
                &&& forall|j: int|
                    0 <= j < i ==> !refused(ds, j) && (refused(ds, i) || r.disk_index(
                        (#[trigger] ds[j]).input.disk_id@,
                    ) is None)
            },
{
    if group_of_node(r, node_id, dg_id) is Some {
        if exists|i: int| #[trigger] first_refused(ds, i) && is_refusal(ds, i, e) {
            let i = choose|i: int| #[trigger] first_refused(ds, i) && is_refusal(ds, i, e);
            assert(ds[i] == ds[i]);
            assert(refused(ds, i) && is_refusal(ds, i, e));
            assert forall|j: int| 0 <= j < i implies !refused(ds, j) && (refused(ds, i)
                || r.disk_index((#[trigger] ds[j]).input.disk_id@) is None) by {
                assert(!refused(ds, j));
            }
        } else {
            let i = choose|i: int| #[trigger]
                first_taken(r, ds, i) && e.is_conflict("disk"@, ds[i].input.disk_id@);
            assert(taken(r, ds, i));
            assert(ds[i] == ds[i]);
            assert forall|j: int| 0 <= j < i implies !refused(ds, j) && (refused(ds, i)
                || r.disk_index((#[trigger] ds[j]).input.disk_id@) is None) by {
                assert(!refused(ds, j));
                assert(!taken(r, ds, j));
            }
        }
    }
}

/// The disks of a batch are recorded one by one and in their order, and so are
/// the changes that follow.
pub proof fn lemma_batch_one_by_one(
    ds: Seq<ReadDiskInput>,
    rack_id: u64,
    node_id: u64,
    dg_id: u64,
    i: int,
)
    requires
        0 <= i < ds.len(),
    ensures
        batch_entries(ds, rack_id, node_id, dg_id).len() == ds.len(),
        batch_updates(ds, rack_id, node_id, dg_id).len() == ds.len(),
        batch_entries(ds, rack_id, node_id, dg_id)[i] == disk_entry(
            ds[i].input,
            rack_id,
            node_id,
            dg_id,
        ),
        batch_updates(ds, rack_id, node_id, dg_id)[i] == disk_update(
            ds[i],
            rack_id,
            node_id,
            dg_id,
        ),
{
}

/// The ids of a disk group's disks are those recorded under it and no other.
pub proof fn lemma_ids_in_group(disks: Seq<DiskEntry>, d: DiskEntry, dg_id: u64)
    ensures
        ids_in_group(Seq::empty(), dg_id).len() == 0,
        d.disk_group_id == dg_id ==> ids_in_group(disks.push(d), dg_id) == ids_in_group(
            disks,
            dg_id,
        ).push(d.disk_id@),
        d.disk_group_id != dg_id ==> ids_in_group(disks.push(d), dg_id) == ids_in_group(
            disks,
            dg_id,
        ),
{
    reveal(Seq::filter);
    assert(disks.push(d).drop_last() =~= disks);
    if d.disk_group_id == dg_id {
        assert(ids_in_group(disks.push(d), dg_id) =~= ids_in_group(disks, dg_id).push(d.disk_id@));
    }
}

/// Disks are taken out in turn, the first with each id, until an id has none.
pub proof fn lemma_taken_out_in_turn(
    before: Seq<DiskEntry>,
    d: DiskEntry,
    after: Seq<DiskEntry>,
    ids: Seq<Seq<char>>,
)
    requires
        forall|i: int| 0 <= i < before.len() ==> (#[trigger] before[i]).disk_id@ != d.disk_id@,
    ensures
        taken_out(before, Seq::empty()) == (before, None::<Seq<char>>),
        taken_out(before + seq![d] + after, seq![d.disk_id@] + ids) == taken_out(
            before + after,
            ids,
        ),
        taken_out(before, seq![d.disk_id@] + ids) == (before, Some(d.disk_id@)),
{
    let all = before + seq![d] + after;
    let list = seq![d.disk_id@] + ids;
    let named = config::disk_named(d.disk_id@);
    assert(list[0] == d.disk_id@);
    assert(list.drop_first() =~= ids);
    let k = before.len() as int;
    assert(all[k] == d);
    assert forall|j: int| 0 <= j < k implies !named(#[trigger] all[j]) by {
        assert(all[j] == before[j]);
    }
    lists::lemma_is_first_index(all, named, k);
    assert(all.remove(k) =~= before + after);
    lists::lemma_no_first_index(before, named);
}

} // verus!

//! Requests to the disk database and their wire form.

use vstd::prelude::*;

use crate::chunkdb::transport::FbSegment;
#[allow(unused_imports)]
use crate::chunkdb::transport;
use crate::protocol::{ChunkId, DiskId, Segment};

verus! {

#[derive(Debug, Clone, PartialEq, Eq)]
pub struct AllocateBlocksRequest {
    pub disk_group_id: u64,
    pub unit_count: u32,
    pub count: u32,
    pub owner_chunk: Option<ChunkId>,
    pub exclude_disk_ids: Vec<DiskId>,
}

#[derive(Debug, Clone, PartialEq, Eq)]
pub struct FbAllocateBlocks {
    pub id: u64,
    pub rpc_create_nano: u64,
    pub disk_group_id: u64,
    pub unit_count: u32,
    pub count: u32,
    pub owner_chunk: ChunkId,
    pub exclude_disk_ids: Vec<DiskId>,
}

pub fn build_allocate_request(req_id: u64, req: &AllocateBlocksRequest) -> (a: FbAllocateBlocks)
    ensures
        a.id == req_id,
        a.rpc_create_nano == 0,
        a.disk_group_id == req.disk_group_id,
        a.unit_count == req.unit_count,
        a.count == req.count,
        a.owner_chunk == transport::chunk_id_or_zero(req.owner_chunk),
        a.exclude_disk_ids@ == req.exclude_disk_ids@,
{
    let owner_chunk = match req.owner_chunk {
        Some(x) => x,
        None => ChunkId { high: 0, low: 0 },
    };
    let exclude_disk_ids = req.exclude_disk_ids.clone();
    assert(exclude_disk_ids@ =~= req.exclude_disk_ids@);
    FbAllocateBlocks {
        id: req_id,
        rpc_create_nano: 0,
        disk_group_id: req.disk_group_id,
        unit_count: req.unit_count,
        count: req.count,
        owner_chunk,
        exclude_disk_ids,
    }
}

/// Segments to free or to commit.
#[derive(Debug, Clone, PartialEq, Eq)]
pub struct SegmentsRequest {
    pub segments: Vec<Segment>,
}

#[derive(Debug, Clone, PartialEq, Eq)]
pub struct FbSegments {
    pub id: u64,
    pub rpc_create_nano: u64,
    pub segments: Vec<FbSegment>,
}

fn build_segments(req_id: u64, segments: &Vec<Segment>) -> (a: FbSegments)
    ensures
        a.id == req_id,
        a.rpc_create_nano == 0,
        a.segments@ == transport::segments_wire(segments@),
{
    FbSegments { id: req_id, rpc_create_nano: 0, segments: transport::build_segments(segments) }
}

pub fn build_free_request(req_id: u64, req: &SegmentsRequest) -> (a: FbSegments)
    ensures
        a.id == req_id,
        a.rpc_create_nano == 0,
        a.segments@ == transport::segments_wire(req.segments@),
{
    build_segments(req_id, &req.segments)
}

pub fn build_commit_request(req_id: u64, req: &SegmentsRequest) -> (a: FbSegments)
    ensures
        a.id == req_id,
        a.rpc_create_nano == 0,
        a.segments@ == transport::segments_wire(req.segments@),
{
    build_segments(req_id, &req.segments)
}

#[derive(Debug, Clone, Copy, PartialEq, Eq)]
pub struct QueryCapacityStatsRequest {
    pub disk_group_id: u64,
    pub disk_id: Option<DiskId>,
    pub zone_index: Option<u32>,
}

#[derive(Debug, Clone, Copy, PartialEq, Eq)]
pub struct FbQueryCapacity {
    pub id: u64,
    pub rpc_create_nano: u64,
    pub disk_group_id: u64,
    pub disk_id: Option<DiskId>,
    pub has_zone_index: bool,
    pub zone_index: u32,
}

/// A zone that is not given is sent as a flag and 0.
pub fn build_query_capacity_request(req_id: u64, req: &QueryCapacityStatsRequest) -> (a:
    FbQueryCapacity)
    ensures
        a == (FbQueryCapacity {
            id: req_id,
            rpc_create_nano: 0,
            disk_group_id: req.disk_group_id,
            disk_id: req.disk_id,
            has_zone_index: req.zone_index is Some,
            zone_index: match req.zone_index {
                Some(z) => z,
                None => 0,
            },
        }),
{
    let zone_index: u32 = match req.zone_index {
        Some(z) => z,
        None => 0,
    };
    FbQueryCapacity {
        id: req_id,
        rpc_create_nano: 0,
        disk_group_id: req.disk_group_id,
        disk_id: req.disk_id,
        has_zone_index: req.zone_index.is_some(),
        zone_index,
    }
}

#[derive(Debug, Clone, Copy, PartialEq, Eq, Structural)]
pub struct FbGetDiskGroupInfo {
    pub id: u64,
    pub rpc_create_nano: u64,
    pub disk_group_id: u64,
}

pub fn build_get_disk_group_info_request(req_id: u64, dg_id: u64) -> (a: FbGetDiskGroupInfo)
    ensures
        a == (FbGetDiskGroupInfo { id: req_id, rpc_create_nano: 0, disk_group_id: dg_id }),
{
    FbGetDiskGroupInfo { id: req_id, rpc_create_nano: 0, disk_group_id: dg_id }
}

#[derive(Debug, Clone, Copy, PartialEq, Eq, Structural)]
pub struct FbGetDiskInfo {
    pub id: u64,
    pub rpc_create_nano: u64,
    pub rack_id: u64,
    pub node_id: u64,
    pub disk_group_id: u64,
    pub disk_id: DiskId,
}

/// The disk is found by its group and id; rack and node are left 0.
pub fn build_get_disk_info_request(req_id: u64, dg_id: u64, disk_id: DiskId) -> (a: FbGetDiskInfo)
    ensures
        a == (FbGetDiskInfo {
            id: req_id,
            rpc_create_nano: 0,
            rack_id: 0,
            node_id: 0,
            disk_group_id: dg_id,
            disk_id,
        }),
{
    FbGetDiskInfo {
        id: req_id,
        rpc_create_nano: 0,
        rack_id: 0,
        node_id: 0,
        disk_group_id: dg_id,
        disk_id,
    }
}

#[derive(Debug, Clone, Copy, PartialEq, Eq, Structural)]
pub struct FbRebuildZoneBitmap {
    pub id: u64,
    pub rpc_create_nano: u64,
    pub disk_id: DiskId,
    pub zone_index: u32,
}

pub fn build_rebuild_zone_bitmap_request(req_id: u64, disk_id: DiskId, zone_index: u32) -> (a:
    FbRebuildZoneBitmap)
    ensures
        a == (FbRebuildZoneBitmap { id: req_id, rpc_create_nano: 0, disk_id, zone_index }),
{
    FbRebuildZoneBitmap { id: req_id, rpc_create_nano: 0, disk_id, zone_index }
}

#[derive(Debug, Clone, Copy, PartialEq, Eq, Structural)]
pub struct FbRecalcDiskUsage {
    pub id: u64,
    pub rpc_create_nano: u64,
    pub has_disk_group_id: bool,
    pub disk_group_id: u64,
}

/// A disk group that is not given is sent as a flag and 0.
pub fn build_recalc_request(req_id: u64, disk_group_id: Option<u64>) -> (a: FbRecalcDiskUsage)
    ensures
        a == (FbRecalcDiskUsage {
            id: req_id,
            rpc_create_nano: 0,
            has_disk_group_id: disk_group_id is Some,
            disk_group_id: match disk_group_id {
                Some(d) => d,
                None => 0,
            },
        }),
{
    let dg: u64 = match disk_group_id {
        Some(d) => d,
        None => 0,
    };
    FbRecalcDiskUsage {
        id: req_id,
        rpc_create_nano: 0,
        has_disk_group_id: disk_group_id.is_some(),
        disk_group_id: dg,
    }
}

#[derive(Debug, Clone, PartialEq, Eq)]
pub struct CompactZoneRequest {
    pub disk_id: Option<DiskId>,
    pub zone_indices: Vec<u32>,
}

#[derive(Debug, Clone, PartialEq, Eq)]
pub struct FbCompactZone {
    pub id: u64,
    pub rpc_create_nano: u64,
    pub disk_id: Option<DiskId>,
    pub zone_indices: Vec<u32>,
}

pub fn build_compact_zone_request(req_id: u64, req: &CompactZoneRequest) -> (a: FbCompactZone)
    ensures
        a.id == req_id,
        a.rpc_create_nano == 0,
        a.disk_id == req.disk_id,
        a.zone_indices@ == req.zone_indices@,
{
    let zone_indices = req.zone_indices.clone();
    assert(zone_indices@ =~= req.zone_indices@);
    FbCompactZone { id: req_id, rpc_create_nano: 0, disk_id: req.disk_id, zone_indices }
}

/// A request that says nothing more.
#[derive(Debug, Clone, Copy, PartialEq, Eq, Structural)]
pub struct FbBare {
    pub id: u64,
    pub rpc_create_nano: u64,
}

pub fn build_trigger_scan_request(req_id: u64) -> (a: FbBare)
    ensures
        a == (FbBare { id: req_id, rpc_create_nano: 0 }),
{
    FbBare { id: req_id, rpc_create_nano: 0 }
}

pub fn build_get_scan_status_request(req_id: u64) -> (a: FbBare)
    ensures
        a == (FbBare { id: req_id, rpc_create_nano: 0 }),
{
    FbBare { id: req_id, rpc_create_nano: 0 }
}

} // verus!

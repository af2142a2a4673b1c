//! Answers of the disk database, read off the wire.

use vstd::prelude::*;

use crate::chunkdb::transport::{parse_fb_segments, FbSegment};
#[allow(unused_imports)]
use crate::chunkdb::transport;
use crate::diskdb::error::{check_ret_code, DiskdbClientError, FbDiskdbRetCode};
#[allow(unused_imports)]
use crate::diskdb::error;
use crate::protocol::{DiskId, Segment};

verus! {

/// An answer: whether it could be read, how the service answered, and what it
/// says.
#[derive(Debug, Clone, PartialEq, Eq)]
pub struct FbReply<T> {
    pub valid: bool,
    pub ret_code: FbDiskdbRetCode,
    pub error_msg: Option<String>,
    pub body: T,
}

/// The answer was received, could be read, and reports success.
pub open spec fn succeeded<T>(reply: Option<FbReply<T>>) -> bool {
    reply matches Some(r) && r.valid && r.ret_code == FbDiskdbRetCode::Success
}

/// Why an answer to the call `what` is of no use.
pub open spec fn is_reply_error<T>(
    reply: Option<FbReply<T>>,
    what: Seq<char>,
    e: DiskdbClientError,
) -> bool {
    match reply {
        None => e.is_rpc("missing control buffer"@),
        Some(r) => if !r.valid {
            e.is_rpc("invalid "@ + what + " response"@)
        } else {
            error::is_code_error(r.ret_code, error::failure_text(r.error_msg), e)
        },
    }
}

/// What the answer to the call `what` says.
fn open_reply<'a, T>(reply: &'a Option<FbReply<T>>, what: &str) -> (r: Result<
    &'a T,
    DiskdbClientError,
>)
    ensures
        match r {
            Ok(b) => succeeded(*reply) && (reply matches Some(x) && *b == x.body),
            Err(e) => !succeeded(*reply) && is_reply_error(*reply, what@, e),
        },
{
    match reply {
        None => Err(DiskdbClientError::rpc("missing control buffer")),
        Some(x) => {
            if !x.valid {
                let mut text = "invalid ".to_owned();
                text.append(what);
                text.append(" response");
                return Err(DiskdbClientError::Rpc(text));
            }
            match check_ret_code(x.ret_code, &x.error_msg) {
                Ok(_) => Ok(&x.body),
                Err(e) => Err(e),
            }
        },
    }
}

/// `out` is what the list `fb` says, entry by entry; a list that is not there
/// is empty.
pub open spec fn list_read<A, B>(
    fb: Option<Vec<A>>,
    out: Seq<B>,
    read: spec_fn(A, B) -> bool,
) -> bool {
    match fb {
        None => out.len() == 0,
        Some(v) => v@.len() == out.len() && forall|i: int|
            0 <= i < out.len() ==> read(v@[i], #[trigger] out[i]),
    }
}

/// Reads a list entry by entry with `f`, which computes `read`.
fn read_list<A, B, F: Fn(&A) -> B>(
    fb: &Option<Vec<A>>,
    f: F,
    read: Ghost<spec_fn(A, B) -> bool>,
) -> (out: Vec<B>)
    requires
        forall|x: &A| call_requires(f, (x,)),
        forall|x: &A, y: B| call_ensures(f, (x,), y) ==> read@(*x, y),
    ensures
        list_read(*fb, out@, read@),
{
    let mut out: Vec<B> = Vec::new();
    if let Some(v) = fb {
        let mut i: usize = 0;
        while i < v.len()
            invariant
                i <= v@.len(),
                out@.len() == i,
                forall|x: &A| call_requires(f, (x,)),
                forall|x: &A, y: B| call_ensures(f, (x,), y) ==> read@(*x, y),
                forall|j: int| 0 <= j < i ==> read@(v@[j], #[trigger] out@[j]),
            decreases v@.len() - i,
        {
            let y = f(&v[i]);
            out.push(y);
            i = i + 1;
        }
    }
    out
}

fn clone_opt(t: &Option<String>) -> (r: Option<String>)
    ensures
        r == *t,
{
    match t {
        Some(s) => Some(s.clone()),
        None => None,
    }
}

fn text_or_empty(t: &Option<String>) -> (r: String)
    ensures
        r@ == transport::message_text(*t),
{
    match t {
        Some(s) => s.clone(),
        None => "".to_owned(),
    }
}

fn id_or_zero(id: Option<DiskId>) -> (r: DiskId)
    ensures
        r == transport::disk_id_or_zero(id),
{
    match id {
        Some(x) => x,
        None => DiskId { high: 0, low: 0 },
    }
}

/// The state of a piece of hardware.
#[derive(Debug, Clone, Copy, PartialEq, Eq, Structural)]
pub enum HwStatus {
    Init,
    Up,
    Maintenance,
    Suspect,
    Missing,
    Bad,
    Offline,
}

#[derive(Debug, Clone, Copy, PartialEq, Eq, Structural)]
pub enum FbHwStatus {
    Init,
    Up,
    Maintenance,
    Suspect,
    Missing,
    Bad,
    Offline,
    Other,
}

pub open spec fn hw_status_read(v: FbHwStatus) -> HwStatus {
    match v {
        FbHwStatus::Up => HwStatus::Up,
        FbHwStatus::Maintenance => HwStatus::Maintenance,
        FbHwStatus::Suspect => HwStatus::Suspect,
        FbHwStatus::Missing => HwStatus::Missing,
        FbHwStatus::Bad => HwStatus::Bad,
        FbHwStatus::Offline => HwStatus::Offline,
        _ => HwStatus::Init,
    }
}

pub fn fb_hw_status(v: FbHwStatus) -> (r: HwStatus)
    ensures
        r == hw_status_read(v),
{
    match v {
        FbHwStatus::Up => HwStatus::Up,
        FbHwStatus::Maintenance => HwStatus::Maintenance,
        FbHwStatus::Suspect => HwStatus::Suspect,
        FbHwStatus::Missing => HwStatus::Missing,
        FbHwStatus::Bad => HwStatus::Bad,
        FbHwStatus::Offline => HwStatus::Offline,
        _ => HwStatus::Init,
    }
}

#[derive(Debug, Clone, Copy, PartialEq, Eq, Structural)]
pub enum DiskType {
    BlockHdd,
    BlockSsd,
    ZoneSsd,
    SmrHdd,
}

#[derive(Debug, Clone, Copy, PartialEq, Eq, Structural)]
pub enum FbDiskType {
    BlockHdd,
    BlockSsd,
    ZoneSsd,
    SmrHdd,
    Other,
}

pub open spec fn disk_type_read(v: FbDiskType) -> DiskType {
    match v {
        FbDiskType::BlockSsd => DiskType::BlockSsd,
        FbDiskType::ZoneSsd => DiskType::ZoneSsd,
        FbDiskType::SmrHdd => DiskType::SmrHdd,
        _ => DiskType::BlockHdd,
    }
}

pub fn fb_disk_type(v: FbDiskType) -> (r: DiskType)
    ensures
        r == disk_type_read(v),
{
    match v {
        FbDiskType::BlockSsd => DiskType::BlockSsd,
        FbDiskType::ZoneSsd => DiskType::ZoneSsd,
        FbDiskType::SmrHdd => DiskType::SmrHdd,
        _ => DiskType::BlockHdd,
    }
}

#[derive(Debug, Clone, Copy, PartialEq, Eq, Structural)]
pub enum ZoneAllocationState {
    ZoneAllocAvailable,
    ZoneAllocFull,
    ZoneAllocActive,
}

#[derive(Debug, Clone, Copy, PartialEq, Eq, Structural)]
pub enum FbZoneAllocationState {
    Available,
    Full,
    Active,
    Other,
}

pub open spec fn zone_state_read(v: FbZoneAllocationState) -> ZoneAllocationState {
    match v {
        FbZoneAllocationState::Available => ZoneAllocationState::ZoneAllocAvailable,
        FbZoneAllocationState::Full => ZoneAllocationState::ZoneAllocFull,
        _ => ZoneAllocationState::ZoneAllocActive,
    }
}

pub fn fb_zone_alloc_state(v: FbZoneAllocationState) -> (r: ZoneAllocationState)
    ensures
        r == zone_state_read(v),
{
    match v {
        FbZoneAllocationState::Available => ZoneAllocationState::ZoneAllocAvailable,
        FbZoneAllocationState::Full => ZoneAllocationState::ZoneAllocFull,
        _ => ZoneAllocationState::ZoneAllocActive,
    }
}

#[derive(Debug, Clone, PartialEq, Eq)]
pub struct FbZoneUsage {
    pub zone_index: u32,
    pub capacity_bytes: u64,
    pub busy_bytes: u64,
    pub free_bytes: u64,
    pub busy_block_count: u32,
    pub free_block_count: u32,
    pub alloc_state: FbZoneAllocationState,
    pub usage_bitmap: Option<Vec<u8>>,
}

#[derive(Debug, Clone, PartialEq, Eq)]
pub struct ZoneUsage {
    pub zone_index: u32,
    pub capacity_bytes: u64,
    pub busy_bytes: u64,
    pub free_bytes: u64,
    pub busy_block_count: u32,
    pub free_block_count: u32,
    pub alloc_state: ZoneAllocationState,
    pub usage_bitmap: Option<Vec<u8>>,
}

pub open spec fn zone_usage_read(fb: FbZoneUsage, z: ZoneUsage) -> bool {
    &&& z.zone_index == fb.zone_index
    &&& z.capacity_bytes == fb.capacity_bytes
    &&& z.busy_bytes == fb.busy_bytes
    &&& z.free_bytes == fb.free_bytes
    &&& z.busy_block_count == fb.busy_block_count
    &&& z.free_block_count == fb.free_block_count
    &&& z.alloc_state == zone_state_read(fb.alloc_state)
    &&& transport::opt_seq(z.usage_bitmap) == transport::opt_seq(fb.usage_bitmap)
}

pub fn parse_zone_usage(fb: &FbZoneUsage) -> (z: ZoneUsage)
    ensures
        zone_usage_read(*fb, z),
{
    let usage_bitmap = match &fb.usage_bitmap {
        Some(v) => {
            let b = v.clone();
            assert(b@ =~= v@);
            Some(b)
        },
        None => None,
    };
    ZoneUsage {
        zone_index: fb.zone_index,
        capacity_bytes: fb.capacity_bytes,
        busy_bytes: fb.busy_bytes,
        free_bytes: fb.free_bytes,
        busy_block_count: fb.busy_block_count,
        free_block_count: fb.free_block_count,
        alloc_state: fb_zone_alloc_state(fb.alloc_state),
        usage_bitmap,
    }
}

#[derive(Debug, Clone, PartialEq, Eq)]
pub struct FbDiskInfo {
    pub rack_id: u64,
    pub node_id: u64,
    pub disk_group_id: u64,
    pub disk_id: Option<DiskId>,
    pub disk_type: FbDiskType,
    pub capacity_units: u64,
    pub zone_size_units: u64,
    pub unit_size_bytes: u32,
    pub zone_count: u32,
    pub status: FbHwStatus,
    pub busy_units: u64,
    pub free_units: u64,
    pub capacity_bytes: u64,
    pub busy_bytes: u64,
    pub free_bytes: u64,
    pub active_zone_count: u32,
    pub zone_usages: Option<Vec<FbZoneUsage>>,
    pub device_path: Option<String>,
}

#[derive(Debug, Clone, PartialEq, Eq)]
pub struct DiskInfo {
    pub rack_id: u64,
    pub node_id: u64,
    pub disk_group_id: u64,
    pub disk_id: Option<DiskId>,
    pub disk_type: DiskType,
    pub capacity_units: u64,
    pub zone_size_units: u64,
    pub unit_size_bytes: u32,
    pub zone_count: u32,
    pub status: HwStatus,
    pub busy_units: u64,
    pub free_units: u64,
    pub capacity_bytes: u64,
    pub busy_bytes: u64,
    pub free_bytes: u64,
    pub active_zone_count: u32,
    pub zone_usages: Vec<ZoneUsage>,
    pub device_path: String,
}

pub open spec fn disk_info_read(fb: FbDiskInfo, d: DiskInfo) -> bool {
    &&& d.rack_id == fb.rack_id
    &&& d.node_id == fb.node_id
    &&& d.disk_group_id == fb.disk_group_id
    &&& d.disk_id == Some(transport::disk_id_or_zero(fb.disk_id))
    &&& d.disk_type == disk_type_read(fb.disk_type)
    &&& d.capacity_units == fb.capacity_units
    &&& d.zone_size_units == fb.zone_size_units
    &&& d.unit_size_bytes == fb.unit_size_bytes
    &&& d.zone_count == fb.zone_count
    &&& d.status == hw_status_read(fb.status)
    &&& d.busy_units == fb.busy_units
    &&& d.free_units == fb.free_units
    &&& d.capacity_bytes == fb.capacity_bytes
    &&& d.busy_bytes == fb.busy_bytes
    &&& d.free_bytes == fb.free_bytes
    &&& d.active_zone_count == fb.active_zone_count
    &&& list_read(
        fb.zone_usages,
        d.zone_usages@,
        |x: FbZoneUsage, y: ZoneUsage| zone_usage_read(x, y),
    )
    &&& d.device_path@ == transport::message_text(fb.device_path)
}

pub fn parse_disk_info(fb: &FbDiskInfo) -> (d: DiskInfo)
    ensures
        disk_info_read(*fb, d),
{
    let f = |x: &FbZoneUsage| -> (y: ZoneUsage)
        ensures
            zone_usage_read(*x, y)
    { parse_zone_usage(x) };
    let zone_usages = read_list(
        &fb.zone_usages,
        f,
        Ghost(|x: FbZoneUsage, y: ZoneUsage| zone_usage_read(x, y)),
    );
    DiskInfo {
        rack_id: fb.rack_id,
        node_id: fb.node_id,
        disk_group_id: fb.disk_group_id,
        disk_id: Some(id_or_zero(fb.disk_id)),
        disk_type: fb_disk_type(fb.disk_type),
        capacity_units: fb.capacity_units,
        zone_size_units: fb.zone_size_units,
        unit_size_bytes: fb.unit_size_bytes,
        zone_count: fb.zone_count,
        status: fb_hw_status(fb.status),
        busy_units: fb.busy_units,
        free_units: fb.free_units,
        capacity_bytes: fb.capacity_bytes,
        busy_bytes: fb.busy_bytes,
        free_bytes: fb.free_bytes,
        active_zone_count: fb.active_zone_count,
        zone_usages,
        device_path: text_or_empty(&fb.device_path),
    }
}

#[derive(Debug, Clone, PartialEq, Eq)]
pub struct FbDiskGroupInfo {
    pub rack_id: u64,
    pub node_id: u64,
    pub disk_group_id: u64,
    pub status: FbHwStatus,
    pub disk_ids: Option<Vec<DiskId>>,
    pub disks: Option<Vec<FbDiskInfo>>,
    pub capacity_bytes: u64,
    pub busy_bytes: u64,
    pub free_bytes: u64,
    pub allocatable_disk_count: u32,
}

#[derive(Debug, Clone, PartialEq, Eq)]
pub struct DiskGroupInfo {
    pub rack_id: u64,
    pub node_id: u64,
    pub disk_group_id: u64,
    pub status: HwStatus,
    pub disk_ids: Vec<DiskId>,
    pub disks: Vec<DiskInfo>,
    pub capacity_bytes: u64,
    pub busy_bytes: u64,
    pub free_bytes: u64,
    pub allocatable_disk_count: u32,
}

pub open spec fn disk_group_info_read(fb: FbDiskGroupInfo, g: DiskGroupInfo) -> bool {
    &&& g.rack_id == fb.rack_id
    &&& g.node_id == fb.node_id
    &&& g.disk_group_id == fb.disk_group_id
    &&& g.status == hw_status_read(fb.status)
    &&& list_read(fb.disk_ids, g.disk_ids@, |x: DiskId, y: DiskId| x == y)
    &&& list_read(fb.disks, g.disks@, |x: FbDiskInfo, y: DiskInfo| disk_info_read(x, y))
    &&& g.capacity_bytes == fb.capacity_bytes
    &&& g.busy_bytes == fb.busy_bytes
    &&& g.free_bytes == fb.free_bytes
    &&& g.allocatable_disk_count == fb.allocatable_disk_count
}

pub fn parse_disk_group_info(fb: &FbDiskGroupInfo) -> (g: DiskGroupInfo)
    ensures
        disk_group_info_read(*fb, g),
{
    let same = |x: &DiskId| -> (y: DiskId)
        ensures
            *x == y
    { *x };
    let disk_ids = read_list(&fb.disk_ids, same, Ghost(|x: DiskId, y: DiskId| x == y));
    let f = |x: &FbDiskInfo| -> (y: DiskInfo)
        ensures
            disk_info_read(*x, y)
    { parse_disk_info(x) };
    let disks = read_list(
        &fb.disks,
        f,
        Ghost(|x: FbDiskInfo, y: DiskInfo| disk_info_read(x, y)),
    );
    DiskGroupInfo {
        rack_id: fb.rack_id,
        node_id: fb.node_id,
        disk_group_id: fb.disk_group_id,
        status: fb_hw_status(fb.status),
        disk_ids,
        disks,
        capacity_bytes: fb.capacity_bytes,
        busy_bytes: fb.busy_bytes,
        free_bytes: fb.free_bytes,
        allocatable_disk_count: fb.allocatable_disk_count,
    }
}

/// What a consistency scan found.
#[derive(Debug, Clone, PartialEq, Eq)]
pub struct FbScanSummary {
    pub started_at_ms: u64,
    pub duration_ms: u64,
    pub zones_scanned: u64,
    pub zones_skipped_active: u64,
    pub zones_skipped_compacting: u64,
    pub ghost_busy: u64,
    pub ghost_free: u64,
    pub uncompacted_lag: u64,
    pub corrupt_snapshots: u64,
    pub corrupt_records: u64,
    pub owner_mismatches: u64,
    pub leak_status: Option<String>,
}

#[derive(Debug, Clone, PartialEq, Eq)]
pub struct ScanSummary {
    pub started_at_ms: u64,
    pub duration_ms: u64,
    pub zones_scanned: u64,
    pub zones_skipped_active: u64,
    pub zones_skipped_compacting: u64,
    pub ghost_busy: u64,
    pub ghost_free: u64,
    pub uncompacted_lag: u64,
    pub corrupt_snapshots: u64,
    pub corrupt_records: u64,
    pub owner_mismatches: u64,
    pub leak_status: String,
}

pub open spec fn scan_summary_read(fb: FbScanSummary, s: ScanSummary) -> bool {
    &&& s.started_at_ms == fb.started_at_ms
    &&& s.duration_ms == fb.duration_ms
    &&& s.zones_scanned == fb.zones_scanned
    &&& s.zones_skipped_active == fb.zones_skipped_active
    &&& s.zones_skipped_compacting == fb.zones_skipped_compacting
    &&& s.ghost_busy == fb.ghost_busy
    &&& s.ghost_free == fb.ghost_free
    &&& s.uncompacted_lag == fb.uncompacted_lag
    &&& s.corrupt_snapshots == fb.corrupt_snapshots
    &&& s.corrupt_records == fb.corrupt_records
    &&& s.owner_mismatches == fb.owner_mismatches
    &&& s.leak_status@ == transport::message_text(fb.leak_status)
}

pub fn parse_scan_summary(fb: &FbScanSummary) -> (s: ScanSummary)
    ensures
        scan_summary_read(*fb, s),
{
    ScanSummary {
        started_at_ms: fb.started_at_ms,
        duration_ms: fb.duration_ms,
        zones_scanned: fb.zones_scanned,
        zones_skipped_active: fb.zones_skipped_active,
        zones_skipped_compacting: fb.zones_skipped_compacting,
        ghost_busy: fb.ghost_busy,
        ghost_free: fb.ghost_free,
        uncompacted_lag: fb.uncompacted_lag,
        corrupt_snapshots: fb.corrupt_snapshots,
        corrupt_records: fb.corrupt_records,
        owner_mismatches: fb.owner_mismatches,
        leak_status: text_or_empty(&fb.leak_status),
    }
}

/// The segments that were allocated.
pub fn parse_allocate_response(reply: &Option<FbReply<Option<Vec<FbSegment>>>>) -> (r: Result<
    Vec<Segment>,
    DiskdbClientError,
>)
    ensures
        match r {
            Ok(v) => succeeded(*reply) && (reply matches Some(x) && v@ == transport::segments_read(
                transport::opt_seq(x.body),
            )),
            Err(e) => !succeeded(*reply) && is_reply_error(*reply, "allocate"@, e),
        },
{
    match open_reply(reply, "allocate") {
        Err(e) => Err(e),
        Ok(segments) => Ok(parse_fb_segments(segments)),
    }
}

/// How many blocks were freed.
pub fn parse_free_response(reply: &Option<FbReply<u32>>) -> (r: Result<u32, DiskdbClientError>)
    ensures
        match r {
            Ok(n) => succeeded(*reply) && (reply matches Some(x) && n == x.body),
            Err(e) => !succeeded(*reply) && is_reply_error(*reply, "free"@, e),
        },
{
    match open_reply(reply, "free") {
        Err(e) => Err(e),
        Ok(n) => Ok(*n),
    }
}

/// How many blocks were committed.
pub fn parse_commit_response(reply: &Option<FbReply<u32>>) -> (r: Result<u32, DiskdbClientError>)
    ensures
        match r {
            Ok(n) => succeeded(*reply) && (reply matches Some(x) && n == x.body),
            Err(e) => !succeeded(*reply) && is_reply_error(*reply, "commit"@, e),
        },
{
    match open_reply(reply, "commit") {
        Err(e) => Err(e),
        Ok(n) => Ok(*n),
    }
}

/// The capacity of disk groups.
pub fn parse_query_capacity_response(
    reply: &Option<FbReply<Option<Vec<FbDiskGroupInfo>>>>,
) -> (r: Result<Vec<DiskGroupInfo>, DiskdbClientError>)
    ensures
        match r {
            Ok(v) => succeeded(*reply) && (reply matches Some(x) && list_read(
                x.body,
                v@,
                |x: FbDiskGroupInfo, y: DiskGroupInfo| disk_group_info_read(x, y),
            )),
            Err(e) => !succeeded(*reply) && is_reply_error(*reply, "query"@, e),
        },
{
    match open_reply(reply, "query") {
        Err(e) => Err(e),
        Ok(groups) => {
            let f = |x: &FbDiskGroupInfo| -> (y: DiskGroupInfo)
                ensures
                    disk_group_info_read(*x, y)
            { parse_disk_group_info(x) };
            Ok(
                read_list(
                    groups,
                    f,
                    Ghost(|x: FbDiskGroupInfo, y: DiskGroupInfo| disk_group_info_read(x, y)),
                ),
            )
        },
    }
}

/// A disk group, if it is known.
pub fn parse_get_disk_group_info_response(
    reply: &Option<FbReply<Option<FbDiskGroupInfo>>>,
) -> (r: Result<Option<DiskGroupInfo>, DiskdbClientError>)
    ensures
        match r {
            Ok(g) => succeeded(*reply) && (reply matches Some(x) && match (x.body, g) {
                (Some(a), Some(b)) => disk_group_info_read(a, b),
                (None, None) => true,
                _ => false,
            }),
            Err(e) => !succeeded(*reply) && is_reply_error(*reply, "get_disk_group_info"@, e),
        },
{
    match open_reply(reply, "get_disk_group_info") {
        Err(e) => Err(e),
        Ok(None) => Ok(None),
        Ok(Some(g)) => Ok(Some(parse_disk_group_info(g))),
    }
}

/// A disk, if it is known.
pub fn parse_get_disk_info_response(reply: &Option<FbReply<Option<FbDiskInfo>>>) -> (r: Result<
    Option<DiskInfo>,
    DiskdbClientError,
>)
    ensures
        match r {
            Ok(d) => succeeded(*reply) && (reply matches Some(x) && match (x.body, d) {
                (Some(a), Some(b)) => disk_info_read(a, b),
                (None, None) => true,
                _ => false,
            }),
            Err(e) => !succeeded(*reply) && is_reply_error(*reply, "get_disk_info"@, e),
        },
{
    match open_reply(reply, "get_disk_info") {
        Err(e) => Err(e),
        Ok(None) => Ok(None),
        Ok(Some(d)) => Ok(Some(parse_disk_info(d))),
    }
}

#[derive(Debug, Clone, Copy, PartialEq, Eq, Structural)]
pub struct RebuildZoneBitmapResponse {
    pub rebuilt_zone_count: u32,
    pub total_busy_units: u64,
    pub total_free_units: u64,
}

/// What rebuilding the bitmap of a zone came to.
pub fn parse_rebuild_zone_bitmap_response(
    reply: &Option<FbReply<RebuildZoneBitmapResponse>>,
) -> (r: Result<RebuildZoneBitmapResponse, DiskdbClientError>)
    ensures
        match r {
            Ok(b) => succeeded(*reply) && (reply matches Some(x) && b == x.body),
            Err(e) => !succeeded(*reply) && is_reply_error(*reply, "rebuild"@, e),
        },
{
    match open_reply(reply, "rebuild") {
        Err(e) => Err(e),
        Ok(b) => Ok(*b),
    }
}

#[derive(Debug, Clone, PartialEq, Eq)]
pub struct FbZoneRecalc {
    pub disk_id: Option<DiskId>,
    pub zone_index: u32,
    pub agrees: bool,
    pub drift_detected: bool,
    pub live_busy_blocks: u64,
    pub replayed_busy_blocks: u64,
    pub live_snapshot_slot: u64,
    pub replayed_snapshot_slot: u64,
    pub fallback_reason: Option<String>,
}

#[derive(Debug, Clone, PartialEq, Eq)]
pub struct ZoneRecalcResult {
    pub disk_id: Option<DiskId>,
    pub zone_index: u32,
    pub agrees: bool,
    pub drift_detected: bool,
    pub live_busy_blocks: u64,
    pub replayed_busy_blocks: u64,
    pub live_snapshot_slot: u64,
    pub replayed_snapshot_slot: u64,
    pub fallback_reason: Option<String>,
}

#[derive(Debug, Clone, PartialEq, Eq)]
pub struct FbDiskGroupRecalc {
    pub disk_group_id: u64,
    pub drift_detected: bool,
    pub zones: Option<Vec<FbZoneRecalc>>,
}

#[derive(Debug, Clone, PartialEq, Eq)]
pub struct DiskGroupRecalcResult {
    pub disk_group_id: u64,
    pub drift_detected: bool,
    pub zones: Vec<ZoneRecalcResult>,
}

pub open spec fn zone_recalc_read(fb: FbZoneRecalc, z: ZoneRecalcResult) -> bool {
    z == (ZoneRecalcResult {
        disk_id: Some(transport::disk_id_or_zero(fb.disk_id)),
        zone_index: fb.zone_index,
        agrees: fb.agrees,
        drift_detected: fb.drift_detected,
        live_busy_blocks: fb.live_busy_blocks,
        replayed_busy_blocks: fb.replayed_busy_blocks,
        live_snapshot_slot: fb.live_snapshot_slot,
        replayed_snapshot_slot: fb.replayed_snapshot_slot,
        fallback_reason: fb.fallback_reason,
    })
}

pub open spec fn group_recalc_read(fb: FbDiskGroupRecalc, g: DiskGroupRecalcResult) -> bool {
    &&& g.disk_group_id == fb.disk_group_id
    &&& g.drift_detected == fb.drift_detected
    &&& list_read(
        fb.zones,
        g.zones@,
        |x: FbZoneRecalc, y: ZoneRecalcResult| zone_recalc_read(x, y),
    )
}

fn parse_zone_recalc(fb: &FbZoneRecalc) -> (z: ZoneRecalcResult)
    ensures
        zone_recalc_read(*fb, z),
{
    ZoneRecalcResult {
        disk_id: Some(id_or_zero(fb.disk_id)),
        zone_index: fb.zone_index,
        agrees: fb.agrees,
        drift_detected: fb.drift_detected,
        live_busy_blocks: fb.live_busy_blocks,
        replayed_busy_blocks: fb.replayed_busy_blocks,
        live_snapshot_slot: fb.live_snapshot_slot,
        replayed_snapshot_slot: fb.replayed_snapshot_slot,
        fallback_reason: clone_opt(&fb.fallback_reason),
    }
}

fn parse_group_recalc(fb: &FbDiskGroupRecalc) -> (g: DiskGroupRecalcResult)
    ensures
        group_recalc_read(*fb, g),
{
    let f = |x: &FbZoneRecalc| -> (y: ZoneRecalcResult)
        ensures
            zone_recalc_read(*x, y)
    { parse_zone_recalc(x) };
    let zones = read_list(
        &fb.zones,
        f,
        Ghost(|x: FbZoneRecalc, y: ZoneRecalcResult| zone_recalc_read(x, y)),
    );
    DiskGroupRecalcResult {
        disk_group_id: fb.disk_group_id,
        drift_detected: fb.drift_detected,
        zones,
    }
}

/// What recomputing the usage of disk groups came to.
pub fn parse_recalc_response(reply: &Option<FbReply<Option<Vec<FbDiskGroupRecalc>>>>) -> (r: Result<
    Vec<DiskGroupRecalcResult>,
    DiskdbClientError,
>)
    ensures
        match r {
            Ok(v) => succeeded(*reply) && (reply matches Some(x) && list_read(
                x.body,
                v@,
                |x: FbDiskGroupRecalc, y: DiskGroupRecalcResult| group_recalc_read(x, y),
            )),
            Err(e) => !succeeded(*reply) && is_reply_error(*reply, "recalc"@, e),
        },
{
    match open_reply(reply, "recalc") {
        Err(e) => Err(e),
        Ok(groups) => {
            let f = |x: &FbDiskGroupRecalc| -> (y: DiskGroupRecalcResult)
                ensures
                    group_recalc_read(*x, y)
            { parse_group_recalc(x) };
            Ok(
                read_list(
                    groups,
                    f,
                    Ghost(|x: FbDiskGroupRecalc, y: DiskGroupRecalcResult| group_recalc_read(x, y)),
                ),
            )
        },
    }
}

/// What became of one zone; the wire form says the same.
#[derive(Debug, Clone, PartialEq, Eq)]
pub struct ZoneCompactionResult {
    pub zone_index: u32,
    pub success: bool,
    pub free_records_deleted: u64,
    pub error: Option<String>,
}

#[derive(Debug, Clone, PartialEq, Eq)]
pub struct FbCompaction {
    pub compacted_zone_count: u32,
    pub total_free_records_deleted: u64,
    pub zones: Option<Vec<ZoneCompactionResult>>,
}

#[derive(Debug, Clone, PartialEq, Eq)]
pub struct CompactZoneResponse {
    pub compacted_zone_count: u32,
    pub total_free_records_deleted: u64,
    pub zones: Vec<ZoneCompactionResult>,
}

pub open spec fn compaction_read(fb: FbCompaction, c: CompactZoneResponse) -> bool {
    &&& c.compacted_zone_count == fb.compacted_zone_count
    &&& c.total_free_records_deleted == fb.total_free_records_deleted
    &&& list_read(fb.zones, c.zones@, |x: ZoneCompactionResult, y: ZoneCompactionResult| x == y)
}

/// What compacting zones came to.
pub fn parse_compact_zone_response(reply: &Option<FbReply<FbCompaction>>) -> (r: Result<
    CompactZoneResponse,
    DiskdbClientError,
>)
    ensures
        match r {
            Ok(c) => succeeded(*reply) && (reply matches Some(x) && compaction_read(x.body, c)),
            Err(e) => !succeeded(*reply) && is_reply_error(*reply, "compact"@, e),
        },
{
    match open_reply(reply, "compact") {
        Err(e) => Err(e),
        Ok(b) => {
            let same = |x: &ZoneCompactionResult| -> (y: ZoneCompactionResult)
                ensures
                    *x == y
            {
                ZoneCompactionResult {
                    zone_index: x.zone_index,
                    success: x.success,
                    free_records_deleted: x.free_records_deleted,
                    error: clone_opt(&x.error),
                }
            };
            let zones = read_list(
                &b.zones,
                same,
                Ghost(|x: ZoneCompactionResult, y: ZoneCompactionResult| x == y),
            );
            Ok(
                CompactZoneResponse {
                    compacted_zone_count: b.compacted_zone_count,
                    total_free_records_deleted: b.total_free_records_deleted,
                    zones,
                },
            )
        },
    }
}

/// A scan summary, if there is one, and a flag: whether a scan is in
/// progress, or whether one has run.
#[derive(Debug, Clone, PartialEq, Eq)]
pub struct FbScan {
    pub summary: Option<FbScanSummary>,
    pub flag: bool,
}

#[derive(Debug, Clone, PartialEq, Eq)]
pub struct TriggerScanResponse {
    pub summary: Option<ScanSummary>,
    pub scan_in_progress: bool,
}

#[derive(Debug, Clone, PartialEq, Eq)]
pub struct GetScanStatusResponse {
    pub summary: Option<ScanSummary>,
    pub has_run: bool,
}

pub open spec fn summary_read(fb: Option<FbScanSummary>, s: Option<ScanSummary>) -> bool {
    match (fb, s) {
        (Some(a), Some(b)) => scan_summary_read(a, b),
        (None, None) => true,
        _ => false,
    }
}

fn read_summary(fb: &Option<FbScanSummary>) -> (s: Option<ScanSummary>)
    ensures
        summary_read(*fb, s),
{
    match fb {
        Some(x) => Some(parse_scan_summary(x)),
        None => None,
    }
}

/// What starting a scan came to.
pub fn parse_trigger_scan_response(reply: &Option<FbReply<FbScan>>) -> (r: Result<
    TriggerScanResponse,
    DiskdbClientError,
>)
    ensures
        match r {
            Ok(t) => succeeded(*reply) && (reply matches Some(x) && summary_read(
                x.body.summary,
                t.summary,
            ) && t.scan_in_progress == x.body.flag),
            Err(e) => !succeeded(*reply) && is_reply_error(*reply, "trigger_scan"@, e),
        },
{
    match open_reply(reply, "trigger_scan") {
        Err(e) => Err(e),
        Ok(b) => Ok(
            TriggerScanResponse { summary: read_summary(&b.summary), scan_in_progress: b.flag },
        ),
    }
}

/// What the last scan found.
pub fn parse_get_scan_status_response(reply: &Option<FbReply<FbScan>>) -> (r: Result<
    GetScanStatusResponse,
    DiskdbClientError,
>)
    ensures
        match r {
            Ok(t) => succeeded(*reply) && (reply matches Some(x) && summary_read(
                x.body.summary,
                t.summary,
            ) && t.has_run == x.body.flag),
            Err(e) => !succeeded(*reply) && is_reply_error(*reply, "get_scan_status"@, e),
        },
{
    match open_reply(reply, "get_scan_status") {
        Err(e) => Err(e),
        Ok(b) => Ok(
            GetScanStatusResponse { summary: read_summary(&b.summary), has_run: b.flag },
        ),
    }
}

/// An answer is of use just where it came, can be read, and reports success;
/// else the first of these that fails is the error.
pub proof fn lemma_reply_used_or_refused<T>(
    reply: Option<FbReply<T>>,
    what: Seq<char>,
    e: DiskdbClientError,
)
    ensures
        reply is None ==> !succeeded(reply),
        reply matches Some(r) ==> (succeeded(reply) <==> r.valid && r.ret_code
            == FbDiskdbRetCode::Success),
        succeeded(reply) ==> !is_reply_error(reply, what, e),
        reply is None ==> (is_reply_error(reply, what, e) <==> (e matches DiskdbClientError::Rpc(s)
            && s@ == "missing control buffer"@)),
        reply matches Some(r) ==> (!r.valid ==> (is_reply_error(reply, what, e) <==> (e matches
            DiskdbClientError::Rpc(s) && s@ == "invalid "@ + what + " response"@))),
        reply matches Some(r) ==> (r.valid ==> (is_reply_error(reply, what, e)
            <==> error::is_code_error(r.ret_code, error::failure_text(r.error_msg), e))),
{
}

/// Lists are read entry by entry, all of them and in their order.
pub proof fn lemma_lists_one_by_one<A, B>(
    fb: Option<Vec<A>>,
    out: Seq<B>,
    read: spec_fn(A, B) -> bool,
    i: int,
)
    requires
        list_read(fb, out, read),
    ensures
        fb is None ==> out.len() == 0,
        fb matches Some(v) ==> out.len() == v@.len() && (0 <= i < out.len() ==> read(v@[i], out[i])),
{
}

/// States of hardware, kinds of disks and states of zones keep their names.
pub proof fn lemma_states_keep_their_names()
    ensures
        hw_status_read(FbHwStatus::Up) == HwStatus::Up,
        hw_status_read(FbHwStatus::Maintenance) == HwStatus::Maintenance,
        hw_status_read(FbHwStatus::Suspect) == HwStatus::Suspect,
        hw_status_read(FbHwStatus::Missing) == HwStatus::Missing,
        hw_status_read(FbHwStatus::Bad) == HwStatus::Bad,
        hw_status_read(FbHwStatus::Offline) == HwStatus::Offline,
        disk_type_read(FbDiskType::BlockSsd) == DiskType::BlockSsd,
        disk_type_read(FbDiskType::ZoneSsd) == DiskType::ZoneSsd,
        disk_type_read(FbDiskType::SmrHdd) == DiskType::SmrHdd,
        zone_state_read(FbZoneAllocationState::Available)
            == ZoneAllocationState::ZoneAllocAvailable,
        zone_state_read(FbZoneAllocationState::Full) == ZoneAllocationState::ZoneAllocFull,
{
}

/// What is not known is taken for new hardware, a plain hard disk, an active
/// zone.
pub proof fn lemma_unknown_states(h: FbHwStatus, d: FbDiskType, z: FbZoneAllocationState)
    ensures
        h !is Up && h !is Maintenance && h !is Suspect && h !is Missing && h !is Bad
            && h !is Offline ==> hw_status_read(h) == HwStatus::Init,
        d !is BlockSsd && d !is ZoneSsd && d !is SmrHdd ==> disk_type_read(d) == DiskType::BlockHdd,
        z !is Available && z !is Full ==> zone_state_read(z)
            == ZoneAllocationState::ZoneAllocActive,
{
}

/// The usage of a zone is read figure by figure.
pub proof fn lemma_zone_usage_figures(fb: FbZoneUsage, z: ZoneUsage)
    requires
        zone_usage_read(fb, z),
    ensures
        z.zone_index == fb.zone_index,
        z.capacity_bytes == fb.capacity_bytes,
        z.busy_bytes == fb.busy_bytes,
        z.free_bytes == fb.free_bytes,
        z.busy_block_count == fb.busy_block_count,
        z.free_block_count == fb.free_block_count,
        z.alloc_state == zone_state_read(fb.alloc_state),
        fb.usage_bitmap matches Some(b) ==> z.usage_bitmap is Some && z.usage_bitmap->0@ == b@,
        fb.usage_bitmap is None ==> z.usage_bitmap is None,
{
}

/// What is known of a disk is read figure by figure.
pub proof fn lemma_disk_figures(fb: FbDiskInfo, d: DiskInfo)
    requires
        disk_info_read(fb, d),
    ensures
        d.rack_id == fb.rack_id,
        d.node_id == fb.node_id,
        d.disk_group_id == fb.disk_group_id,
        fb.disk_id matches Some(id) ==> d.disk_id == Some(id),
        fb.disk_id is None ==> d.disk_id == Some(DiskId { high: 0, low: 0 }),
        d.disk_type == disk_type_read(fb.disk_type),
        d.capacity_units == fb.capacity_units,
        d.zone_size_units == fb.zone_size_units,
        d.unit_size_bytes == fb.unit_size_bytes,
        d.zone_count == fb.zone_count,
        d.status == hw_status_read(fb.status),
        d.busy_units == fb.busy_units,
        d.free_units == fb.free_units,
        d.capacity_bytes == fb.capacity_bytes,
        d.busy_bytes == fb.busy_bytes,
        d.free_bytes == fb.free_bytes,
        d.active_zone_count == fb.active_zone_count,
        fb.device_path matches Some(p) ==> d.device_path@ == p@,
        fb.device_path is None ==> d.device_path@ == ""@,
        fb.zone_usages is None ==> d.zone_usages@.len() == 0,
        fb.zone_usages matches Some(v) ==> d.zone_usages@.len() == v@.len() && forall|i: int|
            0 <= i < v@.len() ==> zone_usage_read(v@[i], #[trigger] d.zone_usages@[i]),
{
}

/// What is known of a disk group is read figure by figure, with all its disks.
pub proof fn lemma_disk_group_figures(fb: FbDiskGroupInfo, g: DiskGroupInfo)
    requires
        disk_group_info_read(fb, g),
    ensures
        g.rack_id == fb.rack_id,
        g.node_id == fb.node_id,
        g.disk_group_id == fb.disk_group_id,
        g.status == hw_status_read(fb.status),
        g.capacity_bytes == fb.capacity_bytes,
        g.busy_bytes == fb.busy_bytes,
        g.free_bytes == fb.free_bytes,
        g.allocatable_disk_count == fb.allocatable_disk_count,
        fb.disk_ids matches Some(v) ==> g.disk_ids@ == v@,
        fb.disk_ids is None ==> g.disk_ids@.len() == 0,
        fb.disks is None ==> g.disks@.len() == 0,
        fb.disks matches Some(v) ==> g.disks@.len() == v@.len() && forall|i: int|
            0 <= i < v@.len() ==> disk_info_read(v@[i], #[trigger] g.disks@[i]),
{
    if let Some(v) = fb.disk_ids {
        assert(g.disk_ids@ =~= v@);
    }
}

/// What a scan found is read figure by figure.
pub proof fn lemma_scan_figures(fb: FbScanSummary, s: ScanSummary)
    requires
        scan_summary_read(fb, s),
    ensures
        s.started_at_ms == fb.started_at_ms,
        s.duration_ms == fb.duration_ms,
        s.zones_scanned == fb.zones_scanned,
        s.zones_skipped_active == fb.zones_skipped_active,
        s.zones_skipped_compacting == fb.zones_skipped_compacting,
        s.ghost_busy == fb.ghost_busy,
        s.ghost_free == fb.ghost_free,
        s.uncompacted_lag == fb.uncompacted_lag,
        s.corrupt_snapshots == fb.corrupt_snapshots,
        s.corrupt_records == fb.corrupt_records,
        s.owner_mismatches == fb.owner_mismatches,
        fb.leak_status matches Some(t) ==> s.leak_status@ == t@,
        fb.leak_status is None ==> s.leak_status@ == ""@,
{
}

/// What a scan found is there just where the answer has it.
pub proof fn lemma_scan_summary_kept(fb: Option<FbScanSummary>, s: Option<ScanSummary>)
    requires
        summary_read(fb, s),
    ensures
        fb is Some <==> s is Some,
        fb is Some ==> scan_summary_read(fb->0, s->0),
{
}

/// What a recalculation found is read figure by figure, for every zone.
pub proof fn lemma_recalc_figures(
    fb: FbZoneRecalc,
    z: ZoneRecalcResult,
    f: FbDiskGroupRecalc,
    g: DiskGroupRecalcResult,
)
    requires
        zone_recalc_read(fb, z),
        group_recalc_read(f, g),
    ensures
        fb.disk_id matches Some(id) ==> z.disk_id == Some(id),
        fb.disk_id is None ==> z.disk_id == Some(DiskId { high: 0, low: 0 }),
        z.zone_index == fb.zone_index,
        z.agrees == fb.agrees,
        z.drift_detected == fb.drift_detected,
        z.live_busy_blocks == fb.live_busy_blocks,
        z.replayed_busy_blocks == fb.replayed_busy_blocks,
        z.live_snapshot_slot == fb.live_snapshot_slot,
        z.replayed_snapshot_slot == fb.replayed_snapshot_slot,
        z.fallback_reason == fb.fallback_reason,
        g.disk_group_id == f.disk_group_id,
        g.drift_detected == f.drift_detected,
        f.zones is None ==> g.zones@.len() == 0,
        f.zones matches Some(v) ==> g.zones@.len() == v@.len() && forall|i: int|
            0 <= i < v@.len() ==> zone_recalc_read(v@[i], #[trigger] g.zones@[i]),
{
}

/// What a compaction did is read figure by figure, for every zone.
pub proof fn lemma_compaction_figures(fb: FbCompaction, c: CompactZoneResponse)
    requires
        compaction_read(fb, c),
    ensures
        c.compacted_zone_count == fb.compacted_zone_count,
        c.total_free_records_deleted == fb.total_free_records_deleted,
        fb.zones is None ==> c.zones@.len() == 0,
        fb.zones matches Some(v) ==> c.zones@ == v@,
{
    if let Some(v) = fb.zones {
        assert(c.zones@ =~= v@);
    }
}

} // verus!

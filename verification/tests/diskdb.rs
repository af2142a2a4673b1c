use crowdb::chunkdb::transport::FbSegment;
use crowdb::diskdb::error;
use crowdb::diskdb::error::{DiskdbClientError, FbDiskdbRetCode};
use crowdb::diskdb::requests;
use crowdb::diskdb::requests::{
    AllocateBlocksRequest, CompactZoneRequest, QueryCapacityStatsRequest, SegmentsRequest,
};
use crowdb::diskdb::responses;
use crowdb::diskdb::responses::{
    DiskType, FbCompaction, FbDiskGroupInfo, FbDiskGroupRecalc, FbDiskInfo, FbDiskType, FbHwStatus,
    FbReply, FbScan, FbScanSummary, FbZoneAllocationState, FbZoneRecalc, FbZoneUsage, HwStatus,
    RebuildZoneBitmapResponse, ZoneAllocationState, ZoneCompactionResult,
};
use crowdb::diskio;
use crowdb::diskio::{DiskIoRetCode, DiskioError, RawReply};
use crowdb::protocol::{ChunkId, DiskId, Segment};

fn reply<T>(body: T) -> Option<FbReply<T>> {
    Some(FbReply { valid: true, ret_code: FbDiskdbRetCode::Success, error_msg: None, body })
}

fn segment() -> Segment {
    Segment {
        disk_id: Some(DiskId::new(1, 2)),
        owner_chunk: Some(ChunkId { high: 3, low: 4 }),
        unit_offset: 5,
        zone_index: 6,
        unit_count: 7,
        allocation_ts: 8,
    }
}

fn fb_segment() -> FbSegment {
    FbSegment {
        disk_id: DiskId::new(1, 2),
        owner_chunk: ChunkId { high: 3, low: 4 },
        unit_offset: 5,
        allocation_ts: 8,
        zone_index: 6,
        unit_count: 7,
    }
}

fn zone(alloc_state: FbZoneAllocationState) -> FbZoneUsage {
    FbZoneUsage {
        zone_index: 1,
        capacity_bytes: 2,
        busy_bytes: 3,
        free_bytes: 4,
        busy_block_count: 5,
        free_block_count: 6,
        alloc_state,
        usage_bitmap: Some(vec![7]),
    }
}

fn disk() -> FbDiskInfo {
    FbDiskInfo {
        rack_id: 1,
        node_id: 2,
        disk_group_id: 3,
        disk_id: Some(DiskId::new(4, 5)),
        disk_type: FbDiskType::ZoneSsd,
        capacity_units: 6,
        zone_size_units: 7,
        unit_size_bytes: 8,
        zone_count: 9,
        status: FbHwStatus::Suspect,
        busy_units: 10,
        free_units: 11,
        capacity_bytes: 12,
        busy_bytes: 13,
        free_bytes: 14,
        active_zone_count: 15,
        zone_usages: Some(vec![zone(FbZoneAllocationState::Full)]),
        device_path: None,
    }
}

fn group() -> FbDiskGroupInfo {
    FbDiskGroupInfo {
        rack_id: 1,
        node_id: 2,
        disk_group_id: 3,
        status: FbHwStatus::Up,
        disk_ids: Some(vec![DiskId::new(4, 5)]),
        disks: Some(vec![disk()]),
        capacity_bytes: 6,
        busy_bytes: 7,
        free_bytes: 8,
        allocatable_disk_count: 9,
    }
}

fn scan() -> FbScanSummary {
    FbScanSummary {
        started_at_ms: 1,
        duration_ms: 2,
        zones_scanned: 3,
        zones_skipped_active: 4,
        zones_skipped_compacting: 5,
        ghost_busy: 6,
        ghost_free: 7,
        uncompacted_lag: 8,
        corrupt_snapshots: 9,
        corrupt_records: 10,
        owner_mismatches: 11,
        leak_status: Some("clean".into()),
    }
}

#[test]
fn every_disk_database_code_has_its_error() {
    let check = |c| error::check_ret_code(c, &Some("why".to_string()));
    assert_eq!(check(FbDiskdbRetCode::Success), Ok(()));
    assert_eq!(check(FbDiskdbRetCode::NoSpace), Err(DiskdbClientError::NoSpace("why".into())));
    assert_eq!(check(FbDiskdbRetCode::NotOwner), Err(DiskdbClientError::NotOwner("why".into())));
    for (code, text) in [
        (FbDiskdbRetCode::DiskNotFound, "disk not found: why"),
        (FbDiskdbRetCode::DiskGroupNotFound, "disk-group not found: why"),
        (FbDiskdbRetCode::Degraded, "degraded: why"),
        (FbDiskdbRetCode::NotFound, "not found: why"),
        (FbDiskdbRetCode::InvalidArgument, "invalid argument: why"),
        (FbDiskdbRetCode::Internal, "internal: why"),
        (FbDiskdbRetCode::Other, "unknown error: why"),
    ] {
        assert_eq!(check(code), Err(DiskdbClientError::Rpc(text.into())));
    }
    assert_eq!(
        error::check_ret_code(FbDiskdbRetCode::Unavailable, &None),
        Err(DiskdbClientError::Unreachable("unavailable: unknown error".into()))
    );
    assert_eq!(
        DiskdbClientError::from_transport(true, "x"),
        DiskdbClientError::Unreachable("rpc transient: x".into())
    );
    assert_eq!(
        DiskdbClientError::from_transport(false, "x"),
        DiskdbClientError::Rpc("rpc error: x".into())
    );
}

#[test]
fn disk_database_requests_carry_their_fields() {
    let a = requests::build_allocate_request(
        9,
        &AllocateBlocksRequest {
            disk_group_id: 1,
            unit_count: 2,
            count: 3,
            owner_chunk: None,
            exclude_disk_ids: vec![DiskId::new(1, 1)],
        },
    );
    assert_eq!((a.id, a.disk_group_id, a.unit_count, a.count), (9, 1, 2, 3));
    assert_eq!(a.owner_chunk, ChunkId { high: 0, low: 0 });
    assert_eq!(a.exclude_disk_ids, vec![DiskId::new(1, 1)]);
    let segments = SegmentsRequest { segments: vec![segment()] };
    assert_eq!(requests::build_free_request(1, &segments).segments, vec![fb_segment()]);
    assert_eq!(requests::build_commit_request(2, &segments).id, 2);
    let q = requests::build_query_capacity_request(
        1,
        &QueryCapacityStatsRequest { disk_group_id: 2, disk_id: None, zone_index: Some(0) },
    );
    assert_eq!((q.disk_group_id, q.has_zone_index, q.zone_index), (2, true, 0));
    assert_eq!(requests::build_get_disk_group_info_request(1, 2).disk_group_id, 2);
    let d = requests::build_get_disk_info_request(1, 2, DiskId::new(3, 4));
    assert_eq!((d.rack_id, d.node_id, d.disk_group_id), (0, 0, 2));
    assert_eq!(d.disk_id, DiskId::new(3, 4));
    let z = requests::build_rebuild_zone_bitmap_request(1, DiskId::new(3, 4), 5);
    assert_eq!((z.disk_id, z.zone_index), (DiskId::new(3, 4), 5));
    let r = requests::build_recalc_request(1, None);
    assert_eq!((r.has_disk_group_id, r.disk_group_id), (false, 0));
    let r = requests::build_recalc_request(1, Some(6));
    assert_eq!((r.has_disk_group_id, r.disk_group_id), (true, 6));
    let c = requests::build_compact_zone_request(
        1,
        &CompactZoneRequest { disk_id: None, zone_indices: vec![4, 5] },
    );
    assert_eq!(c.zone_indices, vec![4, 5]);
    assert_eq!(requests::build_trigger_scan_request(3).id, 3);
    assert_eq!(requests::build_get_scan_status_request(4).id, 4);
}

#[test]
fn replies_are_opened_in_order() {
    let none: Option<FbReply<u32>> = None;
    assert_eq!(
        responses::parse_free_response(&none),
        Err(DiskdbClientError::Rpc("missing control buffer".into()))
    );
    let broken = reply(3).map(|r| FbReply { valid: false, ..r });
    assert_eq!(
        responses::parse_free_response(&broken),
        Err(DiskdbClientError::Rpc("invalid free response".into()))
    );
    assert_eq!(
        responses::parse_commit_response(&broken),
        Err(DiskdbClientError::Rpc("invalid commit response".into()))
    );
    let failed = reply(3).map(|r| FbReply { ret_code: FbDiskdbRetCode::NoSpace, ..r });
    assert_eq!(
        responses::parse_free_response(&failed),
        Err(DiskdbClientError::NoSpace("unknown error".into()))
    );
    assert_eq!(responses::parse_free_response(&reply(3)), Ok(3));
    assert_eq!(responses::parse_commit_response(&reply(4)), Ok(4));
    assert_eq!(
        responses::parse_allocate_response(&reply(Some(vec![fb_segment()]))),
        Ok(vec![segment()])
    );
    assert_eq!(responses::parse_allocate_response(&reply(None)), Ok(vec![]));
}

#[test]
fn disk_reports_are_read() {
    let g = responses::parse_get_disk_group_info_response(&reply(Some(group()))).unwrap().unwrap();
    assert_eq!((g.rack_id, g.node_id, g.disk_group_id), (1, 2, 3));
    assert_eq!((g.capacity_bytes, g.busy_bytes, g.free_bytes), (6, 7, 8));
    assert_eq!((g.status, g.allocatable_disk_count), (HwStatus::Up, 9));
    assert_eq!(g.disk_ids, vec![DiskId::new(4, 5)]);
    let d = &g.disks[0];
    assert_eq!((d.disk_type, d.status), (DiskType::ZoneSsd, HwStatus::Suspect));
    assert_eq!((d.capacity_units, d.zone_count, d.active_zone_count), (6, 9, 15));
    assert_eq!(d.device_path, "");
    assert_eq!(d.zone_usages[0].alloc_state, ZoneAllocationState::ZoneAllocFull);
    assert_eq!(d.zone_usages[0].usage_bitmap, Some(vec![7]));
    assert_eq!(responses::parse_get_disk_group_info_response(&reply(None)), Ok(None));
    let d = responses::parse_get_disk_info_response(&reply(Some(disk()))).unwrap().unwrap();
    assert_eq!(d.disk_id, Some(DiskId::new(4, 5)));
    assert_eq!(responses::parse_get_disk_info_response(&reply(None)), Ok(None));
    let gs = responses::parse_query_capacity_response(&reply(Some(vec![group()]))).unwrap();
    assert_eq!(gs.len(), 1);
    assert!(responses::parse_query_capacity_response(&reply(None)).unwrap().is_empty());
    assert_eq!(responses::fb_hw_status(FbHwStatus::Offline), HwStatus::Offline);
    assert_eq!(responses::fb_disk_type(FbDiskType::SmrHdd), DiskType::SmrHdd);
    assert_eq!(
        responses::fb_zone_alloc_state(FbZoneAllocationState::Active),
        ZoneAllocationState::ZoneAllocActive
    );
}

#[test]
fn maintenance_reports_are_read() {
    let body =
        RebuildZoneBitmapResponse { rebuilt_zone_count: 1, total_busy_units: 2, total_free_units: 3 };
    let r = responses::parse_rebuild_zone_bitmap_response(&reply(body.clone())).unwrap();
    assert_eq!(r, body);
    let z = FbZoneRecalc {
        disk_id: None,
        zone_index: 1,
        agrees: false,
        drift_detected: true,
        live_busy_blocks: 2,
        replayed_busy_blocks: 3,
        live_snapshot_slot: 4,
        replayed_snapshot_slot: 5,
        fallback_reason: Some("gap".into()),
    };
    let g = FbDiskGroupRecalc { disk_group_id: 6, drift_detected: true, zones: Some(vec![z]) };
    let r = responses::parse_recalc_response(&reply(Some(vec![g]))).unwrap();
    assert_eq!((r[0].disk_group_id, r[0].drift_detected), (6, true));
    assert_eq!(r[0].zones[0].fallback_reason, Some("gap".into()));
    assert_eq!((r[0].zones[0].live_busy_blocks, r[0].zones[0].replayed_busy_blocks), (2, 3));
    let zone = ZoneCompactionResult {
        zone_index: 1,
        success: false,
        free_records_deleted: 2,
        error: Some("busy".into()),
    };
    let c = FbCompaction {
        compacted_zone_count: 3,
        total_free_records_deleted: 4,
        zones: Some(vec![zone.clone()]),
    };
    let r = responses::parse_compact_zone_response(&reply(c)).unwrap();
    assert_eq!((r.compacted_zone_count, r.total_free_records_deleted), (3, 4));
    assert_eq!(r.zones, vec![zone]);
    let s = responses::parse_trigger_scan_response(&reply(FbScan { summary: Some(scan()), flag: true }))
        .unwrap();
    assert!(s.scan_in_progress);
    let summary = s.summary.unwrap();
    assert_eq!((summary.ghost_busy, summary.owner_mismatches), (6, 11));
    assert_eq!(summary.leak_status, "clean");
    let s = responses::parse_get_scan_status_response(&reply(FbScan { summary: None, flag: false }))
        .unwrap();
    assert_eq!((s.summary, s.has_run), (None, false));
}

#[test]
fn disk_calls_are_framed() {
    let id = DiskId::new(0x0102, 3);
    assert_eq!(id.to_fb(), vec![2, 1, 0, 0, 0, 0, 0, 0, 3, 0, 0, 0, 0, 0, 0, 0]);
    let t = diskio::write_target(id, 4, 5, 6).unwrap();
    let a = diskio::write_args(9, &t);
    assert_eq!((a.id, a.zone_index, a.zone_offset, a.size), (9, 4, 5, 6));
    assert_eq!(a.disk_id, id.to_fb());
    assert_eq!(
        diskio::write_target(id, 4, 5, u32::MAX as usize + 1),
        Err(DiskioError::Rpc("data too large".into()))
    );
    assert!(diskio::write_target(id, 4, 5, u32::MAX as usize).is_ok());
    let a = diskio::read_args(9, id, 4, 5, 6, 7);
    assert_eq!((a.size, a.test_pattern_offset), (6, 7));
    let a = diskio::fsync_args(9, id);
    assert_eq!((a.zone_index, a.zone_offset, a.size), (0, 0, 0));
}

#[test]
fn disk_answers_are_read_as_the_first_kind_that_fits() {
    let raw = |as_write, as_read, as_fsync| Some(RawReply { as_write, as_read, as_fsync });
    assert_eq!(diskio::parse_ret_code(&raw(Some(0), Some(3), None)), Ok(DiskIoRetCode::Success));
    for (number, code) in [
        (1, DiskIoRetCode::DiskNotExist),
        (2, DiskIoRetCode::ZoneNotExist),
        (3, DiskIoRetCode::IoError),
        (4, DiskIoRetCode::PartialWrite),
        (5, DiskIoRetCode::InvalidAlignment),
        (6, DiskIoRetCode::ConnectionError),
        (-7, DiskIoRetCode::IoError),
    ] {
        assert_eq!(DiskIoRetCode::from(number), code);
        assert_eq!(
            diskio::parse_ret_code(&raw(None, Some(number), Some(0))),
            Err(DiskioError::IoError(code))
        );
    }
    assert_eq!(diskio::parse_ret_code(&raw(None, None, Some(0))), Ok(DiskIoRetCode::Success));
    assert_eq!(
        diskio::parse_ret_code(&raw(None, None, None)),
        Err(DiskioError::Rpc("invalid response flatbuffer".into()))
    );
    assert_eq!(
        diskio::parse_ret_code(&None),
        Err(DiskioError::Rpc("missing control buffer in response".into()))
    );
    assert_eq!(
        DiskioError::IoError(DiskIoRetCode::IoError).message(),
        "disk I/O error: IoError"
    );
    assert_eq!(DiskioError::Rpc("x".into()).message(), "RPC error: x");
}

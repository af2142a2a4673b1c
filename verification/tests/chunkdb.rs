use crowdb::chunkdb::error::ChunkdbClientError;
use crowdb::chunkdb::retry;
use crowdb::chunkdb::retry::{
    EndpointSource, Rebind, RetryConfig, RetryState, RetryStep, MAX_BACKOFF_NS,
};
use crowdb::chunkdb::transport;
use crowdb::chunkdb::transport::{
    ChunkCall, FbChunk, FbChunkResponse, FbChunkState, FbChunkType, FbEmptyResponse,
    FbListResponse, FbRetCode, FbSegment, FbStripBody, FbStripType,
};
use crowdb::kv::registry::register_chunkdb;
use crowdb::protocol::{
    AllocateChunkRequest, AppendChunkRequest, ChunkId, ChunkState, ChunkStrip, ChunkType,
    DeleteChunkRangeRequest, DeleteChunkRequest, DiskId, EcState, EcStrip, ListChunksRequest,
    MirrorStrip, QueryChunkRequest, SealChunkRequest, Segment, Strip, StripType,
    UpdateChunkStripRequest,
};

fn id(low: u64) -> ChunkId {
    ChunkId { high: 9, low }
}

fn segment(low: u64) -> Segment {
    Segment {
        disk_id: Some(DiskId::new(1, low)),
        owner_chunk: Some(id(low)),
        unit_offset: 5,
        zone_index: 6,
        unit_count: 7,
        allocation_ts: 8,
    }
}

fn strip(kind: StripType, body: Strip) -> ChunkStrip {
    ChunkStrip {
        chunk_offset: 1,
        strip_sequence: 2,
        unit_kb: 3,
        capacity: 4,
        create_ts_ms: 5,
        sealed_ts_ms: 6,
        sealed_length: 7,
        strip_type: Some(kind),
        strip: Some(body),
        usage_bitmap: vec![1, 0, 1],
    }
}

fn ec_strip() -> ChunkStrip {
    let ec = EcStrip {
        data_num: 4,
        code_num: 1,
        ec_state: Some(EcState::Parity),
        segments: vec![segment(1), segment(2)],
    };
    strip(StripType::Ec, Strip::EcStrip(ec))
}

fn fb_chunk(low: u64) -> FbChunk {
    FbChunk {
        id: Some(id(low)),
        state: FbChunkState::Sealed,
        create_ts_ms: 1,
        sealed_ts_ms: 2,
        capacity: 3,
        sealed_length: 4,
        strips: None,
        chunk_type: FbChunkType::Wal,
    }
}

fn response(ret_code: FbRetCode, chunk: Option<FbChunk>) -> FbChunkResponse {
    FbChunkResponse { valid: true, ret_code, error_msg: None, chunk }
}

#[test]
fn strips_survive_the_wire() {
    let mirror = strip(
        StripType::Mirror,
        Strip::MirrorStrip(MirrorStrip { segments: vec![segment(3)] }),
    );
    for s in [ec_strip(), mirror] {
        assert_eq!(transport::parse_fb_chunk_strip(&transport::build_chunk_strip(&s)), s);
    }
}

#[test]
fn missing_parts_of_strips_get_defaults() {
    let mut s = ec_strip();
    s.strip = None;
    s.strip_type = None;
    let fb = transport::build_chunk_strip(&s);
    assert_eq!(fb.strip_body, FbStripBody::Absent);
    assert_eq!(transport::parse_fb_chunk_strip(&fb).strip, None);
    let bare = Segment { disk_id: None, owner_chunk: None, ..segment(1) };
    s.strip = Some(Strip::MirrorStrip(MirrorStrip { segments: vec![bare] }));
    match transport::build_chunk_strip(&s).strip_body {
        FbStripBody::Mirror(Some(m)) => {
            assert_eq!(m.segments.unwrap()[0].disk_id, DiskId::new(0, 0));
        }
        other => panic!("unexpected body {other:?}"),
    }
    let none: Option<Vec<FbSegment>> = None;
    assert!(transport::parse_fb_segments(&none).is_empty());
}

#[test]
fn chunks_are_read() {
    let c = transport::parse_fb_chunk(&fb_chunk(3));
    assert_eq!(c.id, Some(id(3)));
    assert_eq!((c.state, c.chunk_type), (ChunkState::Sealed, ChunkType::Wal));
    assert_eq!((c.create_ts_ms, c.sealed_ts_ms, c.capacity, c.sealed_length), (1, 2, 3, 4));
    assert!(c.strips.is_empty());
    for t in [ChunkType::Repo, ChunkType::Wal, ChunkType::BtreePage, ChunkType::PageIndex] {
        assert_eq!(transport::fb_chunk_type_to_proto(transport::chunk_type_to_fb(t)), t);
    }
    for t in [StripType::Mirror, StripType::Ec] {
        assert_eq!(transport::fb_strip_type_to_proto(transport::strip_type_to_fb(t)), t);
    }
    for t in [EcState::NoParity, EcState::Parity] {
        assert_eq!(transport::fb_ec_state_to_proto(transport::ec_state_to_fb(t)), t);
    }
}

#[test]
fn every_return_code_has_its_error() {
    let msg = Some("why".to_string());
    let check = |c: FbRetCode| transport::check_ret_code(&c, &msg);
    let why = || "why".to_string();
    assert_eq!(check(FbRetCode::Success), Ok(()));
    assert_eq!(
        check(FbRetCode::InvalidArgument),
        Err(ChunkdbClientError::InvalidArgument(why()))
    );
    assert_eq!(
        check(FbRetCode::StripIndexOutOfRange),
        Err(ChunkdbClientError::InvalidArgument(why()))
    );
    assert_eq!(check(FbRetCode::NotFound), Err(ChunkdbClientError::NotFound(why())));
    assert_eq!(check(FbRetCode::AlreadyExists), Err(ChunkdbClientError::AlreadyExists(why())));
    assert_eq!(
        check(FbRetCode::FailedPrecondition),
        Err(ChunkdbClientError::FailedPrecondition(why()))
    );
    assert_eq!(check(FbRetCode::Aborted), Err(ChunkdbClientError::Aborted(why())));
    assert_eq!(check(FbRetCode::Internal), Err(ChunkdbClientError::Internal(why())));
    assert_eq!(check(FbRetCode::Unavailable), Err(ChunkdbClientError::Unavailable(why())));
    let e = check(FbRetCode::NotMyRange).unwrap_err();
    assert_eq!(e, ChunkdbClientError::NotMyRange(why()));
    assert!(e.is_not_my_range());
    assert!(check(FbRetCode::Other("42".into())).is_err());
}

#[test]
fn responses_are_checked_before_they_are_read() {
    let r = transport::read_chunk_response(
        ChunkCall::Query,
        &response(FbRetCode::Success, Some(fb_chunk(3))),
    );
    assert_eq!(r.unwrap().unwrap().id, Some(id(3)));
    let r = transport::read_chunk_response(
        ChunkCall::Query,
        &response(FbRetCode::NotFound, Some(fb_chunk(3))),
    );
    assert!(matches!(r, Err(ChunkdbClientError::NotFound(_))));
    let broken = FbChunkResponse { valid: false, ..response(FbRetCode::Success, None) };
    for (call, name) in [
        (ChunkCall::Allocate, "allocate_chunk"),
        (ChunkCall::Append, "append_chunk"),
        (ChunkCall::Query, "query_chunk"),
        (ChunkCall::Seal, "seal_chunk"),
        (ChunkCall::Delete, "delete_chunk"),
        (ChunkCall::UpdateStrip, "update_chunk_strip"),
    ] {
        assert_eq!(
            transport::read_chunk_response(call, &broken),
            Err(ChunkdbClientError::Rpc(format!("{name} response malformed")))
        );
    }
    let empty =
        FbEmptyResponse { valid: true, ret_code: FbRetCode::Success, error_msg: None };
    assert_eq!(transport::read_delete_range_response(&empty), Ok(()));
    let list = FbListResponse {
        valid: true,
        ret_code: FbRetCode::Success,
        error_msg: None,
        chunks: Some(vec![fb_chunk(1), fb_chunk(2)]),
        next_token: Some(id(2)),
    };
    let l = transport::read_list_response(&list).unwrap();
    assert_eq!((l.chunks.len(), l.next_token), (2, Some(id(2))));
    let none = FbListResponse { chunks: None, next_token: None, ..list };
    assert!(transport::read_list_response(&none).unwrap().chunks.is_empty());
    assert_eq!(transport::control_part(Some(5), "h:1"), Ok(5));
    assert_eq!(
        transport::control_part::<u32>(None, "h:1"),
        Err(ChunkdbClientError::Rpc("response missing control buffer from h:1".into()))
    );
}

#[test]
fn requests_carry_their_fields() {
    let a = transport::allocate_args(
        7,
        &AllocateChunkRequest {
            chunk_id: Some(id(1)),
            write_granularity: 2,
            strip_count: 3,
            strip_type: Some(StripType::Ec),
            data_num: 4,
            code_num: 5,
            copy_count: 6,
            chunk_type: Some(ChunkType::BtreePage),
        },
    );
    assert_eq!((a.id, a.chunk_id, a.write_granularity), (7, Some(id(1)), 2));
    assert_eq!((a.strip_count, a.data_num, a.code_num, a.copy_count), (3, 4, 5, 6));
    assert_eq!((a.strip_type, a.chunk_type), (FbStripType::Ec, FbChunkType::BtreePage));
    let a = transport::append_args(
        7,
        &AppendChunkRequest {
            chunk_id: Some(id(1)),
            strip_size: 2,
            strip_count: 3,
            strip_type: Some(StripType::Mirror),
            data_num: 4,
            code_num: 5,
            copy_count: 6,
        },
    );
    assert_eq!((a.id, a.strip_size, a.strip_type), (7, 2, FbStripType::Mirror));
    let q = transport::query_args(8, &QueryChunkRequest { chunk_id: Some(id(2)) });
    assert_eq!((q.id, q.chunk_id), (8, Some(id(2))));
    let d = transport::delete_args(9, &DeleteChunkRequest { chunk_id: None });
    assert_eq!((d.id, d.chunk_id), (9, None));
    let s = transport::seal_args(1, &SealChunkRequest { chunk_id: Some(id(3)), seal_length: 4 });
    assert_eq!((s.chunk_id, s.seal_length), (Some(id(3)), 4));
    let r = transport::delete_range_args(
        1,
        &DeleteChunkRangeRequest { chunk_id: Some(id(3)), chunk_offset: 4, chunk_size: 5 },
    );
    assert_eq!((r.chunk_offset, r.chunk_size), (4, 5));
    let u = transport::update_strip_args(
        1,
        &UpdateChunkStripRequest {
            chunk_id: Some(id(3)),
            strip_index: 4,
            strip: Some(ec_strip()),
        },
    );
    assert_eq!(u.strip_index, 4);
    assert_eq!(transport::parse_fb_chunk_strip(&u.strip.unwrap()), ec_strip());
    let l = transport::list_args(
        1,
        &ListChunksRequest { start_token: Some(id(3)), partition: 4, max_keys: 5 },
    );
    assert_eq!((l.start_token, l.partition, l.max_keys), (Some(id(3)), 4, 5));
}

#[test]
fn retries_back_off_and_end() {
    let c = RetryConfig::default();
    let mut s = RetryState::new(&c);
    let e = ChunkdbClientError::Unavailable("x".into());
    let mut slept = Vec::new();
    while let RetryStep::Retry { sleep_ns, rebind } = s.after_error(&c, true, &e, true, true) {
        assert_eq!(rebind, Rebind::Keep);
        slept.push(sleep_ns);
    }
    assert_eq!(slept, vec![50_000_000, 100_000_000, 200_000_000]);
    assert_eq!(s.attempts, 3);
    let mut s = RetryState::new(&c);
    assert_eq!(s.after_error(&c, false, &e, true, true), RetryStep::GiveUp);
    assert_eq!(s.attempts, 0);
    let big = RetryConfig { max_retries: 9, initial_backoff: MAX_BACKOFF_NS };
    let mut s = RetryState::new(&big);
    s.after_error(&big, true, &e, false, false);
    assert_eq!(s.backoff, MAX_BACKOFF_NS);
}

#[test]
fn moved_ranges_are_looked_up_again() {
    let c = RetryConfig::default();
    let moved = ChunkdbClientError::NotMyRange("x".into());
    let mut s = RetryState::new(&c);
    assert_eq!(
        s.after_error(&c, true, &moved, true, true),
        RetryStep::Retry { sleep_ns: 50_000_000, rebind: Rebind::RefreshAndRoute }
    );
    let mut s = RetryState::new(&c);
    assert!(matches!(
        s.after_allocate_error(&c, &moved, true, true),
        RetryStep::Retry { .. }
    ));
    let mut s = RetryState::new(&c);
    let down = ChunkdbClientError::Unavailable("x".into());
    assert_eq!(s.after_allocate_error(&c, &down, true, true), RetryStep::GiveUp);
}

#[test]
fn endpoints_come_from_the_binding_or_the_list() {
    assert_eq!(retry::endpoint_source(true, true), EndpointSource::Routed);
    assert_eq!(retry::endpoint_source(true, false), EndpointSource::First);
    assert_eq!(retry::endpoint_source(false, true), EndpointSource::First);
    assert_eq!(
        retry::first_endpoint(&vec!["a".into(), "b".into()], false),
        Ok(Some("a".to_string()))
    );
    assert_eq!(retry::first_endpoint(&vec![], false), Ok(None));
    assert_eq!(
        retry::first_endpoint(&vec![], true),
        Err(ChunkdbClientError::Unreachable("no chunkdb instances registered".into()))
    );
}

#[test]
fn endpoints_are_cached_by_instance() {
    let instance = |id: u64, e: &str| (id, register_chunkdb(id, e, 0).value);
    let m = retry::refresh_endpoints(Ok(vec![
        instance(1, "a:1"),
        instance(2, "b:2"),
        instance(1, "c:3"),
    ]))
    .unwrap();
    assert_eq!(m.len(), 2);
    assert_eq!(m[&1], "c:3");
    assert_eq!(
        retry::refresh_endpoints(Err("down".into())),
        Err(ChunkdbClientError::Unreachable("read_all_instances: down".into()))
    );
    assert_eq!(retry::routed_endpoint(Ok("a:1".into())), Ok("a:1".to_string()));
    assert_eq!(
        retry::routed_endpoint(Err("no owner".into())),
        Err(ChunkdbClientError::Unreachable("range routing failed: no owner".into()))
    );
}

#[test]
fn transport_failures_are_told() {
    assert_eq!(
        transport::rpc_error_to_client("reset"),
        ChunkdbClientError::Rpc("rpc error: reset".into())
    );
    assert_eq!(
        transport::invalid_endpoint_error("h", "no port"),
        ChunkdbClientError::Unreachable("invalid endpoint h: no port".into())
    );
    assert_eq!(
        transport::connect_failure_text("h", "1", "refused"),
        "rpc connect to h:1: refused"
    );
}

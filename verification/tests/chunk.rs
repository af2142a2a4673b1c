use std::sync::Arc;

use bytes::Bytes;
use crowdb::chunk::benchmark;
use crowdb::chunk::benchmark::{WorkerResult, WriteReport};
use crowdb::chunk::client;
use crowdb::chunk::client::LargeWritePolicy;
use crowdb::chunk::config::{ChunkClientConfig, EcScheme};
use crowdb::chunk::ec_worker::EcWorker;
use crowdb::chunk::error::IoError;
use crowdb::chunk::fetch::FetchBuffer;
use crowdb::chunk::routing;
use crowdb::chunk::routing::{BlockOp, DiskPlace, Lookup, RouteBuilder, RouteStep};
use crowdb::chunk::writer;
use crowdb::chunk::writer::{
    AbortEvent, AbortStep, Aborting, ChunkWriter, NextStrip, PrefetchStep, PushStep, RotateStep, SealEvent, SealPlan, SealStep,
    Sealing, StripPrefetch,
};
use crowdb::diskio::{DiskIoRetCode, DiskioError};
use crowdb::kv::registry::{chunkdb_extra, disk_group_extra, register_value, InstanceValue};
use crowdb::protocol::{
    Chunk, ChunkId, ChunkState, ChunkStrip, ChunkType, DiskId, Location, Segment, StripType,
};

const UNIT_BYTES: u64 = 4096;
const DEFAULT_UNIT: u64 = 1024 * 1024;

fn ec_4_1() -> EcScheme {
    EcScheme { data_num: 4, code_num: 1 }
}

fn test_config(max_chunk_size: u64) -> Arc<ChunkClientConfig> {
    Arc::new(ChunkClientConfig {
        max_chunk_size,
        prealloc_depth: 2,
        parity_depth: 2,
        chunk_prefetch_depth: 1,
        read_buffer_size: 4096,
        max_cached_buffer: 8 * 4096,
        prefetch_chunk_count: 1,
        memory_budget: 0,
    })
}

fn strip() -> ChunkStrip {
    ChunkStrip {
        chunk_offset: 0,
        strip_sequence: 0,
        unit_kb: 1024,
        capacity: 4,
        create_ts_ms: 0,
        sealed_ts_ms: 0,
        sealed_length: 0,
        strip_type: Some(StripType::Ec),
        strip: None,
        usage_bitmap: vec![],
    }
}

fn chunk(id: Option<u64>, strips: usize) -> Chunk {
    Chunk {
        id: id.map(|low| ChunkId { high: 0, low }),
        state: ChunkState::Active,
        create_ts_ms: 0,
        sealed_ts_ms: 0,
        capacity: 0,
        sealed_length: 0,
        strips: (0..strips).map(|_| strip()).collect(),
        chunk_type: ChunkType::Repo,
    }
}

fn location(length: u64) -> Location {
    Location {
        chunk_id: Some(ChunkId { high: 0, low: 1 }),
        offset: 0,
        length,
        logical_offset: 0,
        logical_length: length,
    }
}

fn opened(strips: usize) -> ChunkWriter {
    let mut w = ChunkWriter::new(ec_4_1(), ChunkClientConfig::default());
    w.open(chunk(Some(1), strips), None).unwrap();
    w
}

#[test]
fn writer_pool_per_writer_memory() {
    let config = ChunkClientConfig {
        max_chunk_size: 1024 * 1024 * 1024,
        prealloc_depth: 2,
        parity_depth: 2,
        chunk_prefetch_depth: 1,
        read_buffer_size: 1024 * 1024,
        max_cached_buffer: 4 * 1024 * 1024,
        prefetch_chunk_count: 1,
        memory_budget: 0,
    };
    let mem = config.per_writer_memory(&ec_4_1());
    assert_eq!(mem, 15 * 1024 * 1024);
}

#[test]
fn benchmark_runner_aggregates_concurrent_large_writes() {
    let policy = LargeWritePolicy { ec_scheme: ec_4_1(), client: test_config(1024 * 1024) };
    assert_eq!(benchmark::worker_count(2), 2);
    let mut total = WorkerResult::default();
    for worker in 0..2u64 {
        let mut w = WorkerResult::default();
        let object = benchmark::claim_object(worker, 2).unwrap();
        assert_eq!(object, worker);
        let r = client::account(vec![location(4 * UNIT_BYTES)], &policy, 3 + worker);
        w.record_write(WriteReport {
            logical_bytes: r.logical_bytes,
            physical_bytes: r.physical_bytes,
            preparation_stalls: r.preparation_stalls,
            preparation_stall_us: r.preparation_stall_us,
            latency_us: r.elapsed_us,
        });
        benchmark::merge_worker(&mut total, w);
    }
    assert_eq!(benchmark::claim_object(2, 2), None);
    let result = benchmark::summarize(total);
    assert_eq!(result.objects, 2);
    assert_eq!(result.errors, 0);
    assert_eq!(result.logical_bytes, 8 * UNIT_BYTES);
    assert_eq!(result.physical_bytes, 10 * UNIT_BYTES);
    assert!(result.latency_p50_us > 0);
    assert!(result.error_messages.is_empty());
}

#[test]
fn benchmark_errors_are_counted() {
    let mut w = WorkerResult::default();
    w.record_error(7, "disk gone");
    benchmark::record_lost_worker(&mut w, "panicked");
    let s = benchmark::summarize(w);
    assert_eq!((s.objects, s.errors, s.latency_p50_us), (0, 2, 0));
    assert_eq!(
        s.error_messages,
        vec!["object 7: disk gone", "benchmark worker failed: panicked"]
    );
    assert_eq!(benchmark::percentile(&(1..=100).collect(), 50), 50);
    assert_eq!(benchmark::percentile(&(1..=100).collect(), 99), 99);
    assert_eq!(benchmark::percentile(&vec![5], 99), 5);
    assert_eq!(benchmark::worker_count(0), 1);
    assert_eq!(benchmark::object_byte(250, 3, 260), 1);
}

#[test]
fn large_writes_account_for_parity() {
    let policy = LargeWritePolicy {
        ec_scheme: EcScheme { data_num: 4, code_num: 2 },
        client: Arc::new(ChunkClientConfig::default()),
    };
    let r = client::account(vec![location(5 * DEFAULT_UNIT), location(1)], &policy, 9);
    assert_eq!((r.chunks, r.strips, r.elapsed_us), (2, 2, 9));
    assert_eq!(r.logical_bytes, 5 * DEFAULT_UNIT + 1);
    assert_eq!(r.physical_bytes, 9 * DEFAULT_UNIT + 1);
    assert_eq!(client::account(vec![], &policy, 0).physical_bytes, 0);
    assert_eq!(client::div_ceil(10, 3), 4);
    assert_eq!(client::div_ceil(9, 3), 3);
    assert_eq!(client::saturated_micros(1 << 70), u64::MAX);
    assert_eq!(client::saturated_micros(12), 12);
}

#[test]
fn configurations_are_validated() {
    let c = ChunkClientConfig::default();
    assert!(c.validate().is_ok());
    let faults = [
        (ChunkClientConfig { read_buffer_size: 0, ..c.clone() }, "read_buffer_size must be > 0"),
        (
            ChunkClientConfig { max_cached_buffer: 1, ..c.clone() },
            "max_cached_buffer must be >= read_buffer_size",
        ),
        (ChunkClientConfig { max_chunk_size: 0, ..c.clone() }, "max_chunk_size must be > 0"),
        (ChunkClientConfig { prealloc_depth: 0, ..c.clone() }, "prealloc_depth must be > 0"),
        (ChunkClientConfig { parity_depth: 0, ..c.clone() }, "parity_depth must be > 0"),
        (
            ChunkClientConfig { prefetch_chunk_count: 0, ..c.clone() },
            "prefetch_chunk_count must be > 0",
        ),
    ];
    for (config, text) in faults {
        assert_eq!(config.validate(), Err(IoError::Internal(text.into())));
    }
    assert_eq!(ec_4_1().total_blocks(), 5);
}

#[test]
fn errors_say_what_failed() {
    let cases = [
        (IoError::AllocationFailed("a".into()), "a"),
        (IoError::WriteFailed("b".into()), "b"),
        (IoError::SourceRead("c".into()), "c"),
        (IoError::Topology("d".into()), "d"),
        (IoError::EcEncodeFailed("e".into()), "e"),
        (IoError::Internal("f".into()), "f"),
    ];
    for (e, detail) in cases {
        assert!(e.message().ends_with(detail));
        assert_ne!(e.message(), detail);
    }
    assert_ne!(IoError::MemoryBudgetExhausted.message(), IoError::Finished.message());
    assert_eq!(
        IoError::from_diskio(&DiskioError::IoError(DiskIoRetCode::PartialWrite)),
        IoError::WriteFailed("disk I/O error: PartialWrite".into())
    );
}

#[test]
fn sources_are_cut_into_blocks() {
    let mut f = FetchBuffer::new(4);
    assert!(f.feed(&[1, 2, 3]).is_empty());
    assert_eq!(
        f.feed(&[4, 5, 6, 7, 8, 9]),
        vec![Bytes::from_static(&[1, 2, 3, 4]), Bytes::from_static(&[5, 6, 7, 8])]
    );
    assert!(f.feed(&[]).is_empty());
    assert_eq!(f.finish(), Some(Bytes::from_static(&[9])));
    let mut whole = FetchBuffer::new(2);
    assert_eq!(whole.feed(&[1, 2]).len(), 1);
    assert_eq!(whole.finish(), None);
}

#[test]
fn blocks_do_not_depend_on_how_the_source_is_read() {
    let data: Vec<u8> = (0..23).collect();
    let cut = |sizes: usize| {
        let mut f = FetchBuffer::new(5);
        let mut out: Vec<Bytes> = Vec::new();
        for part in data.chunks(sizes) {
            out.extend(f.feed(part));
        }
        out.extend(f.finish());
        out
    };
    assert_eq!(cut(1), cut(23));
    assert_eq!(cut(7), cut(23));
    let all: Vec<u8> = cut(7).iter().flat_map(|b| b.to_vec()).collect();
    assert_eq!(all, data);
}

#[test]
fn shards_are_padded_to_the_longest() {
    let mut w = EcWorker::new(EcScheme { data_num: 3, code_num: 1 });
    w.push(&Bytes::from_static(&[1, 2, 3])).unwrap();
    w.push(&Bytes::from_static(&[4])).unwrap();
    w.push(&Bytes::from_static(&[])).unwrap();
    assert_eq!(w.shards_received(), 3);
    assert_eq!(w.ec_scheme().data_num, 3);
    assert_eq!(w.padded_shards(), vec![vec![1, 2, 3], vec![4, 0, 0], vec![0, 0, 0]]);
    assert_eq!(
        w.push(&Bytes::from_static(&[5])),
        Err(IoError::EcEncodeFailed("too many data shards: got 4, max 3".into()))
    );
    assert_eq!(w.finish(Ok(vec![vec![7]])), Ok(vec![vec![7]]));
    assert_eq!(w.finish(Err("singular".into())), Err(IoError::EcEncodeFailed("singular".into())));
    w.reset();
    assert_eq!(w.shards_received(), 0);
    assert!(w.padded_shards().is_empty());
}

#[test]
fn known_sizes_need_just_enough_strips() {
    let c = ChunkClientConfig::default();
    let strips = |size| writer::compute_strips_remaining(Some(size), &ec_4_1(), &c);
    assert_eq!(strips(0), Some(0));
    assert_eq!(strips(1), Some(0));
    assert_eq!(strips(4 * DEFAULT_UNIT), Some(0));
    assert_eq!(strips(4 * DEFAULT_UNIT + 1), Some(1));
    assert_eq!(writer::compute_strips_remaining(None, &ec_4_1(), &c), None);
}

#[test]
fn prefetching_stays_within_bounds() {
    let mut p = StripPrefetch {
        chunk_id: ChunkId { high: 0, low: 1 },
        ec_scheme: ec_4_1(),
        strips_remaining: Some(3),
        next_strip_index: 1,
        strips_per_chunk: 3,
        prealloc_depth: 2,
    };
    assert_eq!(p.step(0), PrefetchStep::Append);
    p.appended();
    assert_eq!((p.next_strip_index, p.strips_remaining), (2, Some(2)));
    assert_eq!(p.step(0), PrefetchStep::Wait);
    assert_eq!(p.step(1), PrefetchStep::Append);
    p.appended();
    assert_eq!(p.step(2), PrefetchStep::Stop);
    let done = StripPrefetch { strips_remaining: Some(0), next_strip_index: 1, ..p };
    assert_eq!(done.step(0), PrefetchStep::Stop);
    assert_eq!(writer::appended_chunk(Some(chunk(Some(1), 1))), Ok(chunk(Some(1), 1)));
    assert_eq!(
        writer::appended_chunk(None),
        Err(IoError::AllocationFailed("append_chunk response missing chunk".into()))
    );
}

#[test]
fn chunks_are_opened_at_their_first_strip() {
    let mut w = ChunkWriter::new(ec_4_1(), ChunkClientConfig::default());
    assert_eq!(w.strips_in_chunk(), 0);
    assert_eq!(w.start_strip_prefetch(), None);
    let no_strips = ChunkClientConfig { read_buffer_size: 0, ..ChunkClientConfig::default() };
    assert_eq!(writer::compute_strips_remaining(None, &ec_4_1(), &no_strips), None);
    let mut unusable = ChunkWriter::new(ec_4_1(), no_strips);
    assert!(unusable.open(chunk(None, 1), Some(1)).is_err());
    assert_eq!(unusable.start_strip_prefetch(), None);
    assert_eq!(
        w.open(chunk(None, 1), None),
        Err(IoError::AllocationFailed("open: chunk missing id".into()))
    );
    assert_eq!(
        w.open(chunk(Some(1), 0), None),
        Err(IoError::AllocationFailed("open: chunk has no strips".into()))
    );
    w.open(chunk(Some(1), 1), Some(9 * DEFAULT_UNIT)).unwrap();
    assert_eq!((w.current_strip, w.strips_remaining), (Some(0), Some(2)));
    assert_eq!(w.strips_in_chunk(), 1);
    let p = w.start_strip_prefetch().unwrap();
    assert_eq!((p.next_strip_index, p.strips_per_chunk, p.prealloc_depth), (1, 256, 2));
    assert_eq!(p.strips_remaining, Some(2));
}

#[test]
fn full_strips_give_way_to_the_next() {
    let mut w = opened(2);
    assert_eq!(w.push_step(true), Ok(PushStep::WriteBlock));
    assert_eq!(w.push_step(false), Ok(PushStep::FinishStrip));
    assert!(w.ready(true));
    assert_eq!(w.take_strip(), Ok(0));
    assert!(w.is_strip_full(true));
    assert_eq!(
        w.take_strip(),
        Err(IoError::Internal("finish_strip with no open strip".into()))
    );
    assert_eq!(w.push_step(true), Err(IoError::Internal("push with no open strip".into())));
    w.finish_strip(4 * DEFAULT_UNIT, vec![11]);
    assert_eq!(w.bytes_in_chunk(), 4 * DEFAULT_UNIT);
    assert_eq!(w.rotate_step(), RotateStep::OpenNext);
    assert_eq!(w.open_next_strip(), Ok(NextStrip::Opened(1)));
    assert_eq!(w.open_next_strip(), Ok(NextStrip::AwaitPrefetch));
    w.prefetch_delivered(chunk(Some(1), 3));
    assert_eq!(w.open_next_strip(), Ok(NextStrip::Opened(2)));
    assert_eq!(w.prefetch_closed(), NextStrip::AppendInline);
    assert_eq!(w.open_next_strip(), Ok(NextStrip::AppendInline));
    assert_eq!(w.preparation_stalls, 2);
    let mut none = ChunkWriter::new(ec_4_1(), ChunkClientConfig::default());
    assert_eq!(
        none.open_next_strip(),
        Err(IoError::Internal("open_next_strip with no chunk".into()))
    );
}

#[test]
fn full_chunks_pause() {
    let mut w = opened(1);
    assert!(!w.is_full());
    w.finish_strip(1024 * 1024 * 1024, vec![]);
    assert!(w.is_full());
    assert_eq!(w.rotate_step(), RotateStep::Pause);
}

#[test]
fn strips_continue_on_the_same_chunk() {
    let mut w = opened(1);
    assert_eq!(
        w.continue_strip(chunk(None, 2)),
        Err(IoError::AllocationFailed("continue_strip: chunk missing id".into()))
    );
    assert_eq!(
        w.continue_strip(chunk(Some(2), 2)),
        Err(IoError::Internal("continue_strip with different chunk_id".into()))
    );
    w.continue_strip(chunk(Some(1), 2)).unwrap();
    assert_eq!((w.write_cursor, w.current_strip), (1, Some(1)));
    let req = w.append_strip().unwrap();
    assert_eq!((req.strip_size, req.strip_count, req.data_num, req.code_num), (4, 1, 4, 1));
    assert_eq!(req.strip_type, Some(StripType::Ec));
    let none = ChunkWriter::new(ec_4_1(), ChunkClientConfig::default());
    assert_eq!(
        none.append_strip(),
        Err(IoError::Internal("append_strip with no open chunk".into()))
    );
}

#[test]
fn prefetched_chunks_are_taken_up_to_the_first_error() {
    let mut w = opened(1);
    w.drain_prefetch(vec![
        Ok(chunk(Some(1), 2)),
        Ok(chunk(Some(1), 3)),
        Err(IoError::Finished),
        Ok(chunk(Some(1), 4)),
    ]);
    assert_eq!(w.chunk.as_ref().unwrap().strips.len(), 3);
    w.drain_prefetch(vec![Err(IoError::Finished)]);
    assert_eq!(w.chunk.as_ref().unwrap().strips.len(), 3);
    w.stop_prefetch();
    assert!(!w.prefetching);
}

#[test]
fn parity_is_awaited_oldest_first() {
    let mut w = opened(1);
    w.finish_strip(1, vec![5, 6]);
    assert_eq!(w.next_parity_to_await(), Some(5));
    assert_eq!(w.next_parity_to_await(), None);
    assert_eq!(w.parity_handles, vec![6]);
    assert_eq!(writer::parity_outcome(Ok(Ok(()))), Ok(()));
    assert_eq!(writer::parity_outcome(Ok(Err(IoError::Finished))), Err(IoError::Finished));
    assert_eq!(
        writer::parity_outcome(Err("cancelled".into())),
        Err(IoError::Internal("parity task panicked: cancelled".into()))
    );
}

#[test]
fn empty_chunks_are_deleted_and_others_sealed() {
    let mut w = opened(1);
    assert!(w.seal_finishes_strip(true));
    assert!(!w.seal_finishes_strip(false));
    match w.seal().unwrap() {
        SealPlan::DeleteEmpty { request, location } => {
            assert_eq!(request.chunk_id, w.current_chunk_id());
            assert_eq!(location.length, 0);
        }
        other => panic!("unexpected plan {other:?}"),
    }
    w.finish_strip(3 * DEFAULT_UNIT + 5, vec![8]);
    match w.seal().unwrap() {
        SealPlan::Seal { parity, request, location } => {
            assert_eq!(parity, vec![8]);
            assert_eq!(request.seal_length, 3);
            assert_eq!(location.length, 3 * DEFAULT_UNIT + 5);
            assert_eq!(location.logical_length, 3 * DEFAULT_UNIT + 5);
        }
        other => panic!("unexpected plan {other:?}"),
    }
    assert!(w.parity_handles.is_empty());
    let mut none = ChunkWriter::new(ec_4_1(), ChunkClientConfig::default());
    assert_eq!(none.seal(), Err(IoError::Internal("seal with no open chunk".into())));
}

#[test]
fn chunks_are_sealed_with_all_their_parity() {
    let mut w = opened(1);
    w.finish_strip(2 * DEFAULT_UNIT, vec![8, 9]);
    let mut s = Sealing::new(w.seal().unwrap());
    assert_eq!(s.step(SealEvent::Started), SealStep::AwaitParity(8));
    assert_eq!(s.step(SealEvent::ParityEnded(Ok(()))), SealStep::AwaitParity(9));
    match s.step(SealEvent::ParityEnded(Ok(()))) {
        SealStep::Seal(request) => assert_eq!(request.seal_length, 2),
        other => panic!("unexpected step {other:?}"),
    }
    assert_eq!(
        s.clone().step(SealEvent::Answered(Err(IoError::Finished))),
        SealStep::Failed(IoError::Finished)
    );
    assert_eq!(s.step(SealEvent::Answered(Ok(()))), SealStep::Done(location(2 * DEFAULT_UNIT)));
}

#[test]
fn chunks_with_failed_parity_are_not_sealed() {
    let mut w = opened(1);
    w.finish_strip(DEFAULT_UNIT, vec![8, 9]);
    let mut s = Sealing::new(w.seal().unwrap());
    assert_eq!(s.step(SealEvent::Started), SealStep::AwaitParity(8));
    assert_eq!(
        s.step(SealEvent::ParityEnded(Err(IoError::Finished))),
        SealStep::Failed(IoError::Finished)
    );
}

#[test]
fn empty_chunks_are_reported_whatever_comes_of_their_deletion() {
    let mut w = opened(1);
    let mut s = Sealing::new(w.seal().unwrap());
    match s.step(SealEvent::Started) {
        SealStep::Delete(request) => assert_eq!(request.chunk_id, w.current_chunk_id()),
        other => panic!("unexpected step {other:?}"),
    }
    assert_eq!(
        s.step(SealEvent::Answered(Err(IoError::Finished))),
        SealStep::Done(location(0))
    );
}

#[test]
fn aborted_chunks_are_deleted_where_anything_was_opened() {
    let mut w = opened(1);
    w.finish_strip(0, vec![4]);
    let plan = w.abort();
    assert_eq!(plan.parity, vec![4]);
    assert_eq!(plan.delete.unwrap().chunk_id, Some(ChunkId { high: 0, low: 1 }));
    let again = w.abort();
    assert!(again.parity.is_empty());
    assert_eq!(again.delete, None);
    let mut none = ChunkWriter::new(ec_4_1(), ChunkClientConfig::default());
    let plan = none.abort();
    assert_eq!((plan.strip, plan.delete), (false, None));
    assert_eq!(Aborting::new(plan).step(AbortEvent::Started), AbortStep::Done);
}

#[test]
fn aborted_chunks_are_deleted_after_all_their_parity_ended() {
    let mut w = opened(1);
    w.parity_handles = vec![4, 5];
    let plan = w.abort();
    assert!(plan.strip);
    let mut a = Aborting::new(plan);
    assert_eq!(a.step(AbortEvent::Started), AbortStep::AbortStrip);
    assert_eq!(a.step(AbortEvent::ParityEnded(Ok(()))), AbortStep::AbortStrip);
    let failed = || Err(IoError::Finished);
    assert_eq!(a.step(AbortEvent::StripAborted(failed())), AbortStep::AwaitParity(4));
    assert_eq!(a.step(AbortEvent::Answered(Ok(()))), AbortStep::AwaitParity(4));
    assert_eq!(a.step(AbortEvent::ParityEnded(failed())), AbortStep::AwaitParity(5));
    match a.step(AbortEvent::ParityEnded(Ok(()))) {
        AbortStep::Delete(request) => {
            assert_eq!(request.chunk_id, Some(ChunkId { high: 0, low: 1 }));
        }
        other => panic!("unexpected step {other:?}"),
    }
    assert_eq!(a.step(AbortEvent::Answered(failed())), AbortStep::Done);
}

fn owner(id: u64, endpoint: &str, groups: Vec<u64>) -> (u64, InstanceValue) {
    (id, register_value(id, endpoint, 0, disk_group_extra(groups, vec![])))
}

#[test]
fn disk_endpoints_are_read() {
    assert_eq!(routing::parse_endpoint("http://h:80"), Ok(("h".into(), 80)));
    assert_eq!(
        routing::parse_endpoint("http://host"),
        Err(IoError::Topology("invalid DiskIO endpoint host".into()))
    );
    match routing::parse_endpoint("h:x").unwrap_err() {
        IoError::Topology(t) => {
            assert!(t.starts_with("invalid DiskIO endpoint h:x"));
            assert!(t.ends_with("invalid digit found in string"));
        }
        other => panic!("unexpected error {other:?}"),
    }
}

#[test]
fn disk_groups_have_one_owner() {
    let owners =
        routing::disk_group_owners(&vec![owner(1, "a:1", vec![10, 11]), owner(2, "b:2", vec![12])])
            .unwrap();
    assert_eq!(owners.len(), 3);
    assert_eq!(owners[&11], "a:1");
    assert_eq!(owners[&12], "b:2");
    assert_eq!(
        routing::disk_group_owners(&vec![owner(1, "a:1", vec![10]), owner(2, "b:2", vec![10])]),
        Err(IoError::Topology("disk group 10 has duplicate owners a:1 and b:2".into()))
    );
    let bare = (3, register_value(3, "c:3", 0, chunkdb_extra()));
    assert_eq!(
        routing::disk_group_owners(&vec![bare]),
        Err(IoError::Topology("DiskIO c:3 has no ownership metadata".into()))
    );
}

#[test]
fn disks_are_routed_to_the_owner_of_their_group() {
    let owners =
        routing::disk_group_owners(&vec![owner(1, "a:1", vec![10]), owner(2, "b:2", vec![20])])
            .unwrap();
    let place = |low, disk_group_id| DiskPlace { disk_id: DiskId::new(0, low), disk_group_id };
    let mut b = RouteBuilder::new(owners, vec![place(1, 10), place(2, 10), place(3, 20)]);
    let mut connected = Vec::new();
    loop {
        match b.advance().unwrap() {
            RouteStep::Connect { endpoint, host, port } => {
                connected.push((host, port));
                b.connected(endpoint);
            }
            RouteStep::Done => break,
        }
    }
    assert_eq!(connected, vec![("a".to_string(), 1), ("b".to_string(), 2)]);
    assert_eq!(b.route(DiskId::new(0, 2)).unwrap(), "a:1");
    assert_eq!(b.route(DiskId::new(0, 3)).unwrap(), "b:2");
    assert_eq!(
        b.route(DiskId::new(5, 9)),
        Err(IoError::Topology("disk 5:9 has no route".into()))
    );
    let owners = routing::disk_group_owners(&vec![]).unwrap();
    let mut b = RouteBuilder::new(owners, vec![place(1, 10)]);
    assert!(matches!(b.advance(), Err(IoError::Topology(_))));
}

#[test]
fn failed_lookups_are_told() {
    for (what, text) in [
        (Lookup::Transport, "start RPC client: x"),
        (Lookup::Instances, "read DiskIO instances: x"),
        (Lookup::Disks, "read disks: x"),
    ] {
        assert_eq!(routing::lookup_error(what, "x"), IoError::Topology(text.into()));
    }
    assert_eq!(
        routing::connect_error("a:1", "refused"),
        IoError::Topology("connect DiskIO a:1: refused".into())
    );
}

#[test]
fn blocks_are_placed_by_their_segment() {
    let seg = Segment {
        disk_id: Some(DiskId::new(1, 2)),
        owner_chunk: None,
        unit_offset: 3,
        zone_index: 4,
        unit_count: 1,
        allocation_ts: 0,
    };
    let t = routing::block_target(&seg, 1024).unwrap();
    assert_eq!((t.zone_index, t.zone_offset, t.disk_id), (4, 3072, DiskId::new(1, 2)));
    assert!(routing::block_target(&Segment { disk_id: None, ..seg }, 1024).is_err());
    assert!(routing::check_block_code(BlockOp::Write, DiskIoRetCode::Success).is_ok());
    assert_eq!(
        routing::check_block_code(BlockOp::Write, DiskIoRetCode::ZoneNotExist),
        Err(IoError::WriteFailed("disk write returned ZoneNotExist".into()))
    );
    assert!(routing::check_block_code(BlockOp::Fsync, DiskIoRetCode::IoError).is_err());
    assert!(routing::check_routed_code("a:1", DiskIoRetCode::Success).is_ok());
    assert_eq!(
        routing::check_routed_code("a:1", DiskIoRetCode::IoError),
        Err(IoError::WriteFailed("a:1 returned IoError".into()))
    );
    assert_eq!(
        routing::routed_error("a:1", "reset"),
        IoError::WriteFailed("a:1: reset".into())
    );
}

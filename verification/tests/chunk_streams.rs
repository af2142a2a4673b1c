use crowdb::chunk::config::{ChunkClientConfig, EcScheme};
use crowdb::chunk::writer::{ChunkWriter, NextStrip, PushStep, RotateStep, SealPlan};
use crowdb::protocol::{Chunk, ChunkId, ChunkState, ChunkStrip, ChunkType, Location, StripType};

const MIB: u64 = 1024 * 1024;

fn config(max_chunk_size: u64) -> ChunkClientConfig {
    ChunkClientConfig {
        max_chunk_size,
        prealloc_depth: 2,
        parity_depth: 2,
        chunk_prefetch_depth: 1,
        read_buffer_size: 1024 * 1024,
        max_cached_buffer: 4 * 1024 * 1024,
        prefetch_chunk_count: 1,
        memory_budget: 0,
    }
}

fn chunk(low: u64, strips: usize) -> Chunk {
    let strip = ChunkStrip {
        chunk_offset: 0,
        strip_sequence: 0,
        unit_kb: 1024,
        capacity: 4,
        create_ts_ms: 0,
        sealed_ts_ms: 0,
        sealed_length: 0,
        strip_type: Some(StripType::Ec),
        strip: None,
        usage_bitmap: vec![],
    };
    Chunk {
        id: Some(ChunkId { high: 0, low }),
        state: ChunkState::Active,
        create_ts_ms: 0,
        sealed_ts_ms: 0,
        capacity: 0,
        sealed_length: 0,
        strips: vec![strip; strips],
        chunk_type: ChunkType::Repo,
    }
}

/// Finishes the open strip of `blocks` blocks, with one parity task.
fn finish(w: &mut ChunkWriter, blocks: &mut u64, parity: &mut u64, awaited: &mut Vec<u64>) {
    while let Some(id) = w.next_parity_to_await() {
        awaited.push(id);
    }
    w.take_strip().unwrap();
    w.finish_strip(*blocks * MIB, vec![*parity]);
    *blocks = 0;
    *parity += 1;
}

fn seal(w: &mut ChunkWriter, blocks: &mut u64, parity: &mut u64, awaited: &mut Vec<u64>) -> Location {
    w.stop_prefetch();
    if w.seal_finishes_strip(*blocks > 0) {
        finish(w, blocks, parity, awaited);
    }
    match w.seal().unwrap() {
        SealPlan::Seal { parity, location, request } => {
            awaited.extend(parity);
            assert_eq!(u64::from(request.seal_length) * MIB, location.length);
            location
        }
        SealPlan::DeleteEmpty { location, .. } => location,
    }
}

/// Writes `mib` blocks of one mebibyte; every chunk comes with one strip, the
/// others are appended when they are needed.
fn write(mib: u64, max_chunk_size: u64) -> Vec<Location> {
    let scheme = EcScheme { data_num: 4, code_num: 1 };
    let mut w = ChunkWriter::new(scheme, config(max_chunk_size));
    let (mut blocks, mut parity, mut chunks) = (0u64, 0u64, 1u64);
    let mut awaited = Vec::new();
    let mut locations = Vec::new();
    w.open(chunk(1, 1), Some(mib * MIB)).unwrap();
    w.stop_prefetch();
    let mut written = 0;
    while written < mib {
        if w.push_step(blocks < 4).unwrap() == PushStep::FinishStrip {
            finish(&mut w, &mut blocks, &mut parity, &mut awaited);
            if w.rotate_step() == RotateStep::Pause {
                locations.push(seal(&mut w, &mut blocks, &mut parity, &mut awaited));
                chunks += 1;
                w = ChunkWriter::new(scheme, config(max_chunk_size));
                w.open(chunk(chunks, 1), Some((mib - written) * MIB)).unwrap();
                w.stop_prefetch();
                continue;
            }
            assert_eq!(w.open_next_strip().unwrap(), NextStrip::AppendInline);
            let strips = w.strips_in_chunk() as usize;
            w.continue_strip(chunk(chunks, strips + 1)).unwrap();
        }
        blocks += 1;
        written += 1;
    }
    locations.push(seal(&mut w, &mut blocks, &mut parity, &mut awaited));
    awaited.sort_unstable();
    assert_eq!(awaited, (0..parity).collect::<Vec<u64>>());
    locations
}

fn lengths(locations: &[Location]) -> Vec<u64> {
    locations.iter().map(|l| l.length / MIB).collect()
}

#[test]
fn three_strips_fit_one_chunk() {
    let locs = write(12, 1024 * MIB);
    assert_eq!(locs.len(), 1);
    assert_eq!(locs[0].length, 12 * MIB);
    assert_eq!(locs[0].logical_length, 12 * MIB);
    assert_eq!(locs[0].offset, 0);
}

#[test]
fn five_strips_rotate_through_three_chunks() {
    let locs = write(20, 8 * MIB);
    assert_eq!(lengths(&locs), vec![8, 8, 4]);
    let ids: Vec<u64> = locs.iter().map(|l| l.chunk_id.unwrap().low).collect();
    assert_eq!(ids, vec![1, 2, 3]);
}

#[test]
fn partial_strips_are_sealed_at_their_length() {
    assert_eq!(lengths(&write(3, 1024 * MIB)), vec![3]);
    assert_eq!(lengths(&write(1, 1024 * MIB)), vec![1]);
    assert_eq!(lengths(&write(4, 1024 * MIB)), vec![4]);
    assert_eq!(lengths(&write(9, 8 * MIB)), vec![8, 1]);
}

#[test]
fn nothing_written_leaves_an_empty_location() {
    assert_eq!(lengths(&write(0, 1024 * MIB)), vec![0]);
}

//! The messages that clients and services exchange about chunks.

use vstd::prelude::*;

verus! {

/// The 128-bit id of a chunk.
#[derive(Debug, Clone, Copy, PartialEq, Eq, Structural)]
pub struct ChunkId {
    pub high: u64,
    pub low: u64,
}

/// The 128-bit id of a disk.
#[derive(Debug, Clone, Copy, PartialEq, Eq, PartialOrd, Ord, Hash, Structural)]
pub struct DiskId {
    pub high: u64,
    pub low: u64,
}

impl DiskId {
    pub fn new(high: u64, low: u64) -> (id: Self)
        ensures
            id.high == high,
            id.low == low,
    {
        DiskId { high, low }
    }
}

/// A run of units on a disk.
#[derive(Debug, Clone, Copy, PartialEq, Eq)]
pub struct Segment {
    pub disk_id: Option<DiskId>,
    pub owner_chunk: Option<ChunkId>,
    pub unit_offset: u64,
    pub zone_index: u32,
    pub unit_count: u32,
    pub allocation_ts: u64,
}

#[derive(Debug, Clone, Copy, PartialEq, Eq, Structural)]
pub enum StripType {
    Mirror,
    Ec,
}

#[derive(Debug, Clone, Copy, PartialEq, Eq, Structural)]
pub enum ChunkType {
    Repo,
    Wal,
    BtreePage,
    PageIndex,
}

#[derive(Debug, Clone, Copy, PartialEq, Eq, Structural)]
pub enum ChunkState {
    Init,
    Active,
    Sealed,
    Deleted,
}

#[derive(Debug, Clone, Copy, PartialEq, Eq, Structural)]
pub enum EcState {
    NoParity,
    Parity,
}

#[derive(Debug, Clone, PartialEq, Eq)]
pub struct MirrorStrip {
    pub segments: Vec<Segment>,
}

/// An erasure-coded strip. A state that is not known is `None`.
#[derive(Debug, Clone, PartialEq, Eq)]
pub struct EcStrip {
    pub data_num: u32,
    pub code_num: u32,
    pub ec_state: Option<EcState>,
    pub segments: Vec<Segment>,
}

#[derive(Debug, Clone, PartialEq, Eq)]
pub enum Strip {
    MirrorStrip(MirrorStrip),
    EcStrip(EcStrip),
}

/// A strip of a chunk. A type that is not known is `None`.
#[derive(Debug, Clone, PartialEq, Eq)]
pub struct ChunkStrip {
    pub chunk_offset: u64,
    pub strip_sequence: u32,
    pub unit_kb: u32,
    pub capacity: u32,
    pub create_ts_ms: u64,
    pub sealed_ts_ms: u64,
    pub sealed_length: u32,
    pub strip_type: Option<StripType>,
    pub strip: Option<Strip>,
    pub usage_bitmap: Vec<u8>,
}

#[derive(Debug, Clone, PartialEq, Eq)]
pub struct Chunk {
    pub id: Option<ChunkId>,
    pub state: ChunkState,
    pub create_ts_ms: u64,
    pub sealed_ts_ms: u64,
    pub capacity: u32,
    pub sealed_length: u32,
    pub strips: Vec<ChunkStrip>,
    pub chunk_type: ChunkType,
}

/// Where a piece of an object is stored.
#[derive(Debug, Clone, Copy, PartialEq, Eq)]
pub struct Location {
    pub chunk_id: Option<ChunkId>,
    pub offset: u64,
    pub length: u64,
    pub logical_offset: u64,
    pub logical_length: u64,
}

/// What a strip's body says.
pub enum StripView {
    Mirror { segments: Seq<Segment> },
    Ec { data_num: u32, code_num: u32, ec_state: Option<EcState>, segments: Seq<Segment> },
}

impl View for Strip {
    type V = StripView;

    open spec fn view(&self) -> StripView {
        match self {
            Strip::MirrorStrip(m) => StripView::Mirror { segments: m.segments@ },
            Strip::EcStrip(e) => StripView::Ec {
                data_num: e.data_num,
                code_num: e.code_num,
                ec_state: e.ec_state,
                segments: e.segments@,
            },
        }
    }
}

/// What a strip says.
pub struct ChunkStripView {
    pub chunk_offset: u64,
    pub strip_sequence: u32,
    pub unit_kb: u32,
    pub capacity: u32,
    pub create_ts_ms: u64,
    pub sealed_ts_ms: u64,
    pub sealed_length: u32,
    pub strip_type: Option<StripType>,
    pub strip: Option<StripView>,
    pub usage_bitmap: Seq<u8>,
}

impl View for ChunkStrip {
    type V = ChunkStripView;

    open spec fn view(&self) -> ChunkStripView {
        ChunkStripView {
            chunk_offset: self.chunk_offset,
            strip_sequence: self.strip_sequence,
            unit_kb: self.unit_kb,
            capacity: self.capacity,
            create_ts_ms: self.create_ts_ms,
            sealed_ts_ms: self.sealed_ts_ms,
            sealed_length: self.sealed_length,
            strip_type: self.strip_type,
            strip: match self.strip {
                Some(s) => Some(s@),
                None => None,
            },
            usage_bitmap: self.usage_bitmap@,
        }
    }
}

/// What a chunk says.
pub struct ChunkView {
    pub id: Option<ChunkId>,
    pub state: ChunkState,
    pub create_ts_ms: u64,
    pub sealed_ts_ms: u64,
    pub capacity: u32,
    pub sealed_length: u32,
    pub strips: Seq<ChunkStripView>,
    pub chunk_type: ChunkType,
}

pub open spec fn strip_views(s: Seq<ChunkStrip>) -> Seq<ChunkStripView> {
    s.map_values(|x: ChunkStrip| x@)
}

impl View for Chunk {
    type V = ChunkView;

    open spec fn view(&self) -> ChunkView {
        ChunkView {
            id: self.id,
            state: self.state,
            create_ts_ms: self.create_ts_ms,
            sealed_ts_ms: self.sealed_ts_ms,
            capacity: self.capacity,
            sealed_length: self.sealed_length,
            strips: strip_views(self.strips@),
            chunk_type: self.chunk_type,
        }
    }
}

#[derive(Debug, Clone, Copy, PartialEq, Eq)]
pub struct AllocateChunkRequest {
    pub chunk_id: Option<ChunkId>,
    pub write_granularity: u32,
    pub strip_count: u32,
    pub strip_type: Option<StripType>,
    pub data_num: u32,
    pub code_num: u32,
    pub copy_count: u32,
    pub chunk_type: Option<ChunkType>,
}

#[derive(Debug, Clone, Copy, PartialEq, Eq)]
pub struct AppendChunkRequest {
    pub chunk_id: Option<ChunkId>,
    pub strip_size: u32,
    pub strip_count: u32,
    pub strip_type: Option<StripType>,
    pub data_num: u32,
    pub code_num: u32,
    pub copy_count: u32,
}

#[derive(Debug, Clone, Copy, PartialEq, Eq)]
pub struct SealChunkRequest {
    pub chunk_id: Option<ChunkId>,
    pub seal_length: u32,
}

#[derive(Debug, Clone, Copy, PartialEq, Eq)]
pub struct DeleteChunkRequest {
    pub chunk_id: Option<ChunkId>,
}

#[derive(Debug, Clone, Copy, PartialEq, Eq)]
pub struct QueryChunkRequest {
    pub chunk_id: Option<ChunkId>,
}

#[derive(Debug, Clone, Copy, PartialEq, Eq)]
pub struct DeleteChunkRangeRequest {
    pub chunk_id: Option<ChunkId>,
    pub chunk_offset: u64,
    pub chunk_size: u64,
}

#[derive(Debug, Clone, PartialEq, Eq)]
pub struct UpdateChunkStripRequest {
    pub chunk_id: Option<ChunkId>,
    pub strip_index: u32,
    pub strip: Option<ChunkStrip>,
}

#[derive(Debug, Clone, Copy, PartialEq, Eq)]
pub struct ListChunksRequest {
    pub start_token: Option<ChunkId>,
    pub partition: u32,
    pub max_keys: u32,
}

#[derive(Debug, Clone, PartialEq, Eq)]
pub struct ListChunksResponse {
    pub chunks: Vec<Chunk>,
    pub next_token: Option<ChunkId>,
}

/// A chunk and its strips are seen as they are.
pub proof fn lemma_chunk_is_shown(c: Chunk, s: ChunkStrip)
    ensures
        c@.id == c.id,
        c@.state == c.state,
        c@.create_ts_ms == c.create_ts_ms,
        c@.sealed_ts_ms == c.sealed_ts_ms,
        c@.capacity == c.capacity,
        c@.sealed_length == c.sealed_length,
        c@.chunk_type == c.chunk_type,
        c@.strips.len() == c.strips@.len(),
        forall|i: int| 0 <= i < c.strips@.len() ==> #[trigger] c@.strips[i] == c.strips@[i]@,
        s@.chunk_offset == s.chunk_offset,
        s@.strip_sequence == s.strip_sequence,
        s@.unit_kb == s.unit_kb,
        s@.capacity == s.capacity,
        s@.create_ts_ms == s.create_ts_ms,
        s@.sealed_ts_ms == s.sealed_ts_ms,
        s@.sealed_length == s.sealed_length,
        s@.strip_type == s.strip_type,
        s@.usage_bitmap == s.usage_bitmap@,
        s.strip is None <==> s@.strip is None,
        s.strip matches Some(Strip::MirrorStrip(m)) ==> s@.strip == Some(
            StripView::Mirror { segments: m.segments@ },
        ),
        s.strip matches Some(Strip::EcStrip(e)) ==> (s@.strip matches Some(
            StripView::Ec { data_num, code_num, ec_state, segments },
        ) && data_num == e.data_num && code_num == e.code_num && ec_state == e.ec_state && segments
            == e.segments@),
{
}

} // verus!

//! Requests to and responses from the chunk database, between the messages
//! and their wire form.

use vstd::prelude::*;

use crate::chunkdb::error::ChunkdbClientError;
use crate::protocol::{
    AllocateChunkRequest, AppendChunkRequest, Chunk, ChunkId, ChunkState, ChunkStrip, ChunkStripView,
    ChunkType, ChunkView, DeleteChunkRangeRequest, DeleteChunkRequest, DiskId, EcState, EcStrip,
    ListChunksRequest, ListChunksResponse, MirrorStrip, QueryChunkRequest, SealChunkRequest, Segment,
    Strip, StripType, StripView, UpdateChunkStripRequest,
};
#[allow(unused_imports)]
use crate::protocol;

verus! {

#[derive(Debug, Clone, Copy, PartialEq, Eq, Structural)]
pub enum FbStripType {
    Mirror,
    Ec,
    Other,
}

#[derive(Debug, Clone, Copy, PartialEq, Eq, Structural)]
pub enum FbChunkType {
    Repo,
    Wal,
    BtreePage,
    PageIndex,
    Other,
}

#[derive(Debug, Clone, Copy, PartialEq, Eq, Structural)]
pub enum FbChunkState {
    Init,
    Active,
    Sealed,
    Deleted,
    Other,
}

#[derive(Debug, Clone, Copy, PartialEq, Eq, Structural)]
pub enum FbEcState {
    NoParity,
    Parity,
    Other,
}

/// How the service answered. A code that is not known comes with its text.
#[derive(Debug, Clone, PartialEq, Eq)]
pub enum FbRetCode {
    Success,
    InvalidArgument,
    StripIndexOutOfRange,
    NotFound,
    AlreadyExists,
    FailedPrecondition,
    Aborted,
    Internal,
    Unavailable,
    NotMyRange,
    Other(String),
}

#[derive(Debug, Clone, Copy, PartialEq, Eq, Structural)]
pub struct FbSegment {
    pub disk_id: DiskId,
    pub owner_chunk: ChunkId,
    pub unit_offset: u64,
    pub allocation_ts: u64,
    pub zone_index: u32,
    pub unit_count: u32,
}

/// The body of a strip: its kind, and where the body itself is there, what it
/// says.
#[derive(Debug, Clone, PartialEq, Eq)]
pub enum FbStripBody {
    Absent,
    Mirror(Option<FbMirrorStrip>),
    Ec(Option<FbEcStrip>),
}

#[derive(Debug, Clone, PartialEq, Eq)]
pub struct FbMirrorStrip {
    pub segments: Option<Vec<FbSegment>>,
}

#[derive(Debug, Clone, PartialEq, Eq)]
pub struct FbEcStrip {
    pub data_num: u32,
    pub code_num: u32,
    pub ec_state: FbEcState,
    pub segments: Option<Vec<FbSegment>>,
}

#[derive(Debug, Clone, PartialEq, Eq)]
pub struct FbChunkStrip {
    pub chunk_offset: u64,
    pub strip_sequence: u32,
    pub unit_kb: u32,
    pub capacity: u32,
    pub create_ts_ms: u64,
    pub sealed_ts_ms: u64,
    pub sealed_length: u32,
    pub strip_type: FbStripType,
    pub strip_body: FbStripBody,
    pub usage_bitmap: Option<Vec<u8>>,
}

#[derive(Debug, Clone, PartialEq, Eq)]
pub struct FbChunk {
    pub id: Option<ChunkId>,
    pub state: FbChunkState,
    pub create_ts_ms: u64,
    pub sealed_ts_ms: u64,
    pub capacity: u32,
    pub sealed_length: u32,
    pub strips: Option<Vec<FbChunkStrip>>,
    pub chunk_type: FbChunkType,
}

/// What the body of a strip on the wire says.
pub enum FbBodyView {
    Absent,
    Mirror(Option<Option<Seq<FbSegment>>>),
    Ec(Option<FbEcView>),
}

pub struct FbEcView {
    pub data_num: u32,
    pub code_num: u32,
    pub ec_state: FbEcState,
    pub segments: Option<Seq<FbSegment>>,
}

/// What a strip on the wire says.
pub struct FbChunkStripView {
    pub chunk_offset: u64,
    pub strip_sequence: u32,
    pub unit_kb: u32,
    pub capacity: u32,
    pub create_ts_ms: u64,
    pub sealed_ts_ms: u64,
    pub sealed_length: u32,
    pub strip_type: FbStripType,
    pub strip_body: FbBodyView,
    pub usage_bitmap: Option<Seq<u8>>,
}

pub open spec fn opt_seq<T>(v: Option<Vec<T>>) -> Option<Seq<T>> {
    match v {
        Some(x) => Some(x@),
        None => None,
    }
}

impl View for FbStripBody {
    type V = FbBodyView;

    open spec fn view(&self) -> FbBodyView {
        match self {
            FbStripBody::Absent => FbBodyView::Absent,
            FbStripBody::Mirror(None) => FbBodyView::Mirror(None),
            FbStripBody::Mirror(Some(m)) => FbBodyView::Mirror(Some(opt_seq(m.segments))),
            FbStripBody::Ec(None) => FbBodyView::Ec(None),
            FbStripBody::Ec(Some(e)) => FbBodyView::Ec(
                Some(
                    FbEcView {
                        data_num: e.data_num,
                        code_num: e.code_num,
                        ec_state: e.ec_state,
                        segments: opt_seq(e.segments),
                    },
                ),
            ),
        }
    }
}

impl View for FbChunkStrip {
    type V = FbChunkStripView;

    open spec fn view(&self) -> FbChunkStripView {
        FbChunkStripView {
            chunk_offset: self.chunk_offset,
            strip_sequence: self.strip_sequence,
            unit_kb: self.unit_kb,
            capacity: self.capacity,
            create_ts_ms: self.create_ts_ms,
            sealed_ts_ms: self.sealed_ts_ms,
            sealed_length: self.sealed_length,
            strip_type: self.strip_type,
            strip_body: self.strip_body@,
            usage_bitmap: opt_seq(self.usage_bitmap),
        }
    }
}

pub open spec fn strip_type_wire(t: StripType) -> FbStripType {
    match t {
        StripType::Mirror => FbStripType::Mirror,
        StripType::Ec => FbStripType::Ec,
    }
}

pub open spec fn strip_type_read(t: FbStripType) -> StripType {
    match t {
        FbStripType::Ec => StripType::Ec,
        _ => StripType::Mirror,
    }
}

pub open spec fn chunk_type_wire(t: ChunkType) -> FbChunkType {
    match t {
        ChunkType::Repo => FbChunkType::Repo,
        ChunkType::Wal => FbChunkType::Wal,
        ChunkType::BtreePage => FbChunkType::BtreePage,
        ChunkType::PageIndex => FbChunkType::PageIndex,
    }
}

pub open spec fn chunk_type_read(t: FbChunkType) -> ChunkType {
    match t {
        FbChunkType::Wal => ChunkType::Wal,
        FbChunkType::BtreePage => ChunkType::BtreePage,
        FbChunkType::PageIndex => ChunkType::PageIndex,
        _ => ChunkType::Repo,
    }
}

pub open spec fn chunk_state_read(s: FbChunkState) -> ChunkState {
    match s {
        FbChunkState::Active => ChunkState::Active,
        FbChunkState::Sealed => ChunkState::Sealed,
        FbChunkState::Deleted => ChunkState::Deleted,
        _ => ChunkState::Init,
    }
}

pub open spec fn ec_state_wire(s: EcState) -> FbEcState {
    match s {
        EcState::NoParity => FbEcState::NoParity,
        EcState::Parity => FbEcState::Parity,
    }
}

pub open spec fn ec_state_read(s: FbEcState) -> EcState {
    match s {
        FbEcState::Parity => EcState::Parity,
        _ => EcState::NoParity,
    }
}

/// A type that is not known counts as mirrored.
pub open spec fn known_strip_type(t: Option<StripType>) -> StripType {
    match t {
        Some(x) => x,
        None => StripType::Mirror,
    }
}

/// A type that is not known counts as a repository's.
pub open spec fn known_chunk_type(t: Option<ChunkType>) -> ChunkType {
    match t {
        Some(x) => x,
        None => ChunkType::Repo,
    }
}

/// A state that is not known counts as without parity.
pub open spec fn known_ec_state(s: Option<EcState>) -> EcState {
    match s {
        Some(x) => x,
        None => EcState::NoParity,
    }
}

pub open spec fn disk_id_or_zero(id: Option<DiskId>) -> DiskId {
    match id {
        Some(x) => x,
        None => DiskId { high: 0, low: 0 },
    }
}

pub open spec fn chunk_id_or_zero(id: Option<ChunkId>) -> ChunkId {
    match id {
        Some(x) => x,
        None => ChunkId { high: 0, low: 0 },
    }
}

pub open spec fn segment_wire(s: Segment) -> FbSegment {
    FbSegment {
        disk_id: disk_id_or_zero(s.disk_id),
        owner_chunk: chunk_id_or_zero(s.owner_chunk),
        unit_offset: s.unit_offset,
        allocation_ts: s.allocation_ts,
        zone_index: s.zone_index,
        unit_count: s.unit_count,
    }
}

pub open spec fn segment_read(s: FbSegment) -> Segment {
    Segment {
        disk_id: Some(s.disk_id),
        owner_chunk: Some(s.owner_chunk),
        unit_offset: s.unit_offset,
        zone_index: s.zone_index,
        unit_count: s.unit_count,
        allocation_ts: s.allocation_ts,
    }
}

pub open spec fn segments_wire(s: Seq<Segment>) -> Seq<FbSegment> {
    s.map_values(|x: Segment| segment_wire(x))
}

/// Segments that are not there count as none.
pub open spec fn segments_read(s: Option<Seq<FbSegment>>) -> Seq<Segment> {
    match s {
        Some(v) => v.map_values(|x: FbSegment| segment_read(x)),
        None => seq![],
    }
}

pub open spec fn body_wire(strip: Option<StripView>) -> FbBodyView {
    match strip {
        None => FbBodyView::Absent,
        Some(StripView::Mirror { segments }) => FbBodyView::Mirror(
            Some(Some(segments_wire(segments))),
        ),
        Some(StripView::Ec { data_num, code_num, ec_state, segments }) => FbBodyView::Ec(
            Some(
                FbEcView {
                    data_num,
                    code_num,
                    ec_state: ec_state_wire(known_ec_state(ec_state)),
                    segments: Some(segments_wire(segments)),
                },
            ),
        ),
    }
}

pub open spec fn body_read(body: FbBodyView) -> Option<StripView> {
    match body {
        FbBodyView::Absent => None,
        FbBodyView::Mirror(None) => Some(StripView::Mirror { segments: seq![] }),
        FbBodyView::Mirror(Some(s)) => Some(StripView::Mirror { segments: segments_read(s) }),
        FbBodyView::Ec(None) => Some(
            StripView::Ec {
                data_num: 0,
                code_num: 0,
                ec_state: Some(EcState::NoParity),
                segments: seq![],
            },
        ),
        FbBodyView::Ec(Some(e)) => Some(
            StripView::Ec {
                data_num: e.data_num,
                code_num: e.code_num,
                ec_state: Some(ec_state_read(e.ec_state)),
                segments: segments_read(e.segments),
            },
        ),
    }
}

/// The wire form of a strip. An empty usage bitmap is left out.
pub open spec fn strip_wire(s: ChunkStripView) -> FbChunkStripView {
    FbChunkStripView {
        chunk_offset: s.chunk_offset,
        strip_sequence: s.strip_sequence,
        unit_kb: s.unit_kb,
        capacity: s.capacity,
        create_ts_ms: s.create_ts_ms,
        sealed_ts_ms: s.sealed_ts_ms,
        sealed_length: s.sealed_length,
        strip_type: strip_type_wire(known_strip_type(s.strip_type)),
        strip_body: body_wire(s.strip),
        usage_bitmap: if s.usage_bitmap.len() == 0 {
            None
        } else {
            Some(s.usage_bitmap)
        },
    }
}

/// The strip that a wire form stands for.
pub open spec fn strip_read(s: FbChunkStripView) -> ChunkStripView {
    ChunkStripView {
        chunk_offset: s.chunk_offset,
        strip_sequence: s.strip_sequence,
        unit_kb: s.unit_kb,
        capacity: s.capacity,
        create_ts_ms: s.create_ts_ms,
        sealed_ts_ms: s.sealed_ts_ms,
        sealed_length: s.sealed_length,
        strip_type: Some(strip_type_read(s.strip_type)),
        strip: body_read(s.strip_body),
        usage_bitmap: match s.usage_bitmap {
            Some(v) => v,
            None => seq![],
        },
    }
}

/// Every segment names its disk and its owner.
pub open spec fn segments_complete(s: Seq<Segment>) -> bool {
    forall|i: int|
        0 <= i < s.len() ==> (#[trigger] s[i]).disk_id is Some && s[i].owner_chunk is Some
}

/// A strip all of whose parts are known.
pub open spec fn strip_complete(s: ChunkStripView) -> bool {
    &&& s.strip_type is Some
    &&& match s.strip {
        None => true,
        Some(StripView::Mirror { segments }) => segments_complete(segments),
        Some(StripView::Ec { ec_state, segments, .. }) => ec_state is Some && segments_complete(
            segments,
        ),
    }
}

proof fn lemma_segments_round_trip(s: Seq<Segment>)
    requires
        segments_complete(s),
    ensures
        segments_read(Some(segments_wire(s))) == s,
{
    let r = segments_read(Some(segments_wire(s)));
    assert forall|i: int| 0 <= i < s.len() implies r[i] == s[i] by {
        assert(s[i].disk_id is Some);
    }
    assert(r =~= s);
}

/// A strip that is sent is read back as it was, if all its parts are known.
pub proof fn lemma_strip_round_trip(s: ChunkStripView)
    requires
        strip_complete(s),
    ensures
        strip_read(strip_wire(s)) == s,
{
    match s.strip {
        None => {},
        Some(StripView::Mirror { segments }) => {
            lemma_segments_round_trip(segments);
        },
        Some(StripView::Ec { segments, .. }) => {
            lemma_segments_round_trip(segments);
        },
    }
    assert(strip_read(strip_wire(s)).usage_bitmap =~= s.usage_bitmap);
}

/// What a chunk on the wire says.
pub struct FbChunkView {
    pub id: Option<ChunkId>,
    pub state: FbChunkState,
    pub create_ts_ms: u64,
    pub sealed_ts_ms: u64,
    pub capacity: u32,
    pub sealed_length: u32,
    pub strips: Option<Seq<FbChunkStripView>>,
    pub chunk_type: FbChunkType,
}

impl View for FbChunk {
    type V = FbChunkView;

    open spec fn view(&self) -> FbChunkView {
        FbChunkView {
            id: self.id,
            state: self.state,
            create_ts_ms: self.create_ts_ms,
            sealed_ts_ms: self.sealed_ts_ms,
            capacity: self.capacity,
            sealed_length: self.sealed_length,
            strips: match self.strips {
                Some(v) => Some(v@.map_values(|x: FbChunkStrip| x@)),
                None => None,
            },
            chunk_type: self.chunk_type,
        }
    }
}

/// The chunk that a wire form stands for.
pub open spec fn chunk_read(c: FbChunkView) -> ChunkView {
    ChunkView {
        id: c.id,
        state: chunk_state_read(c.state),
        create_ts_ms: c.create_ts_ms,
        sealed_ts_ms: c.sealed_ts_ms,
        capacity: c.capacity,
        sealed_length: c.sealed_length,
        strips: match c.strips {
            Some(v) => v.map_values(|x: FbChunkStripView| strip_read(x)),
            None => seq![],
        },
        chunk_type: chunk_type_read(c.chunk_type),
    }
}

pub fn strip_type_to_fb(t: StripType) -> (r: FbStripType)
    ensures
        r == strip_type_wire(t),
{
    match t {
        StripType::Mirror => FbStripType::Mirror,
        StripType::Ec => FbStripType::Ec,
    }
}

pub fn fb_strip_type_to_proto(t: FbStripType) -> (r: StripType)
    ensures
        r == strip_type_read(t),
{
    match t {
        FbStripType::Ec => StripType::Ec,
        _ => StripType::Mirror,
    }
}

pub fn chunk_type_to_fb(t: ChunkType) -> (r: FbChunkType)
    ensures
        r == chunk_type_wire(t),
{
    match t {
        ChunkType::Repo => FbChunkType::Repo,
        ChunkType::Wal => FbChunkType::Wal,
        ChunkType::BtreePage => FbChunkType::BtreePage,
        ChunkType::PageIndex => FbChunkType::PageIndex,
    }
}

pub fn fb_chunk_type_to_proto(t: FbChunkType) -> (r: ChunkType)
    ensures
        r == chunk_type_read(t),
{
    match t {
        FbChunkType::Wal => ChunkType::Wal,
        FbChunkType::BtreePage => ChunkType::BtreePage,
        FbChunkType::PageIndex => ChunkType::PageIndex,
        _ => ChunkType::Repo,
    }
}

pub fn fb_chunk_state_to_proto(s: FbChunkState) -> (r: ChunkState)
    ensures
        r == chunk_state_read(s),
{
    match s {
        FbChunkState::Active => ChunkState::Active,
        FbChunkState::Sealed => ChunkState::Sealed,
        FbChunkState::Deleted => ChunkState::Deleted,
        _ => ChunkState::Init,
    }
}

pub fn ec_state_to_fb(s: EcState) -> (r: FbEcState)
    ensures
        r == ec_state_wire(s),
{
    match s {
        EcState::NoParity => FbEcState::NoParity,
        EcState::Parity => FbEcState::Parity,
    }
}

pub fn fb_ec_state_to_proto(s: FbEcState) -> (r: EcState)
    ensures
        r == ec_state_read(s),
{
    match s {
        FbEcState::Parity => EcState::Parity,
        _ => EcState::NoParity,
    }
}

/// Reads segments off the wire.
pub fn parse_fb_segments(fb: &Option<Vec<FbSegment>>) -> (out: Vec<Segment>)
    ensures
        out@ == segments_read(opt_seq(*fb)),
{
    let mut out: Vec<Segment> = Vec::new();
    match fb {
        None => {
            assert(out@ =~= segments_read(opt_seq(*fb)));
        },
        Some(v) => {
            let mut i: usize = 0;
            while i < v.len()
                invariant
                    i <= v@.len(),
                    out@ == v@.take(i as int).map_values(|x: FbSegment| segment_read(x)),
                decreases v@.len() - i,
            {
                let s = v[i];
                out.push(
                    Segment {
                        disk_id: Some(s.disk_id),
                        owner_chunk: Some(s.owner_chunk),
                        unit_offset: s.unit_offset,
                        zone_index: s.zone_index,
                        unit_count: s.unit_count,
                        allocation_ts: s.allocation_ts,
                    },
                );
                i = i + 1;
                assert(out@ =~= v@.take(i as int).map_values(|x: FbSegment| segment_read(x)));
            }
            assert(v@.take(i as int) =~= v@);
        },
    }
    out
}

pub(crate) fn build_segments(segments: &Vec<Segment>) -> (out: Vec<FbSegment>)
    ensures
        out@ == segments_wire(segments@),
{
    let mut out: Vec<FbSegment> = Vec::new();
    let mut i: usize = 0;
    while i < segments.len()
        invariant
            i <= segments@.len(),
            out@ == segments_wire(segments@.take(i as int)),
        decreases segments@.len() - i,
    {
        let s = segments[i];
        let disk_id = match s.disk_id {
            Some(x) => x,
            None => DiskId { high: 0, low: 0 },
        };
        let owner_chunk = match s.owner_chunk {
            Some(x) => x,
            None => ChunkId { high: 0, low: 0 },
        };
        out.push(
            FbSegment {
                disk_id,
                owner_chunk,
                unit_offset: s.unit_offset,
                allocation_ts: s.allocation_ts,
                zone_index: s.zone_index,
                unit_count: s.unit_count,
            },
        );
        i = i + 1;
        assert(out@ =~= segments_wire(segments@.take(i as int)));
    }
    assert(segments@.take(i as int) =~= segments@);
    out
}

/// The body of a strip in its wire form.
pub fn build_strip_body(strip: &ChunkStrip) -> (body: FbStripBody)
    ensures
        body@ == body_wire(strip@.strip),
{
    match &strip.strip {
        None => FbStripBody::Absent,
        Some(Strip::MirrorStrip(mirror)) => {
            let segments = build_segments(&mirror.segments);
            FbStripBody::Mirror(Some(FbMirrorStrip { segments: Some(segments) }))
        },
        Some(Strip::EcStrip(ec)) => {
            let segments = build_segments(&ec.segments);
            let state = match ec.ec_state {
                Some(s) => s,
                None => EcState::NoParity,
            };
            FbStripBody::Ec(
                Some(
                    FbEcStrip {
                        data_num: ec.data_num,
                        code_num: ec.code_num,
                        ec_state: ec_state_to_fb(state),
                        segments: Some(segments),
                    },
                ),
            )
        },
    }
}

/// A strip in its wire form.
pub fn build_chunk_strip(strip: &ChunkStrip) -> (fb: FbChunkStrip)
    ensures
        fb@ == strip_wire(strip@),
{
    let strip_type = match strip.strip_type {
        Some(t) => t,
        None => StripType::Mirror,
    };
    let strip_body = build_strip_body(strip);
    let usage_bitmap = if strip.usage_bitmap.len() == 0 {
        None
    } else {
        let b = strip.usage_bitmap.clone();
        assert(b@ =~= strip.usage_bitmap@);
        Some(b)
    };
    FbChunkStrip {
        chunk_offset: strip.chunk_offset,
        strip_sequence: strip.strip_sequence,
        unit_kb: strip.unit_kb,
        capacity: strip.capacity,
        create_ts_ms: strip.create_ts_ms,
        sealed_ts_ms: strip.sealed_ts_ms,
        sealed_length: strip.sealed_length,
        strip_type: strip_type_to_fb(strip_type),
        strip_body,
        usage_bitmap,
    }
}

/// Reads a strip off the wire.
pub fn parse_fb_chunk_strip(fb: &FbChunkStrip) -> (s: ChunkStrip)
    ensures
        s@ == strip_read(fb@),
{
    let strip = match &fb.strip_body {
        FbStripBody::Absent => None,
        FbStripBody::Mirror(None) => {
            let segments: Vec<Segment> = Vec::new();
            assert(segments@ =~= seq![]);
            Some(Strip::MirrorStrip(MirrorStrip { segments }))
        },
        FbStripBody::Mirror(Some(m)) => Some(
            Strip::MirrorStrip(MirrorStrip { segments: parse_fb_segments(&m.segments) }),
        ),
        FbStripBody::Ec(None) => {
            let segments: Vec<Segment> = Vec::new();
            assert(segments@ =~= seq![]);
            Some(
                Strip::EcStrip(
                    EcStrip {
                        data_num: 0,
                        code_num: 0,
                        ec_state: Some(EcState::NoParity),
                        segments,
                    },
                ),
            )
        },
        FbStripBody::Ec(Some(e)) => Some(
            Strip::EcStrip(
                EcStrip {
                    data_num: e.data_num,
                    code_num: e.code_num,
                    ec_state: Some(fb_ec_state_to_proto(e.ec_state)),
                    segments: parse_fb_segments(&e.segments),
                },
            ),
        ),
    };
    let usage_bitmap = match &fb.usage_bitmap {
        Some(v) => {
            let b = v.clone();
            assert(b@ =~= v@);
            b
        },
        None => {
            let b: Vec<u8> = Vec::new();
            assert(b@ =~= seq![]);
            b
        },
    };
    ChunkStrip {
        chunk_offset: fb.chunk_offset,
        strip_sequence: fb.strip_sequence,
        unit_kb: fb.unit_kb,
        capacity: fb.capacity,
        create_ts_ms: fb.create_ts_ms,
        sealed_ts_ms: fb.sealed_ts_ms,
        sealed_length: fb.sealed_length,
        strip_type: Some(fb_strip_type_to_proto(fb.strip_type)),
        strip,
        usage_bitmap,
    }
}

/// Reads a chunk off the wire.
pub fn parse_fb_chunk(fb: &FbChunk) -> (c: Chunk)
    ensures
        c@ == chunk_read(fb@),
        c.id == fb.id,
        c.strips@.len() == (match fb.strips {
            Some(v) => v@.len(),
            None => 0,
        }),
{
    let mut strips: Vec<ChunkStrip> = Vec::new();
    match &fb.strips {
        None => {
            assert(protocol::strip_views(strips@) =~= seq![]);
        },
        Some(v) => {
            let ghost w = v@.map_values(|x: FbChunkStrip| x@);
            let ghost f = |x: FbChunkStripView| strip_read(x);
            let mut i: usize = 0;
            assert(protocol::strip_views(strips@) =~= w.take(0).map_values(f));
            while i < v.len()
                invariant
                    i <= v@.len(),
                    w == v@.map_values(|x: FbChunkStrip| x@),
                    f == (|x: FbChunkStripView| strip_read(x)),
                    protocol::strip_views(strips@) == w.take(i as int).map_values(f),
                decreases v@.len() - i,
            {
                let s = parse_fb_chunk_strip(&v[i]);
                proof {
                    assert(w[i as int] == v@[i as int]@);
                    assert(protocol::strip_views(strips@.push(s)) =~= protocol::strip_views(
                        strips@,
                    ).push(s@));
                    assert(w.take(i + 1).map_values(f) =~= w.take(i as int).map_values(f).push(
                        f(w[i as int]),
                    ));
                }
                strips.push(s);
                i = i + 1;
            }
            assert(w.take(i as int) =~= w);
        },
    }
    Chunk {
        id: fb.id,
        state: fb_chunk_state_to_proto(fb.state),
        create_ts_ms: fb.create_ts_ms,
        sealed_ts_ms: fb.sealed_ts_ms,
        capacity: fb.capacity,
        sealed_length: fb.sealed_length,
        strips,
        chunk_type: fb_chunk_type_to_proto(fb.chunk_type),
    }
}

/// The error that a return code stands for.
pub open spec fn is_code_error(code: FbRetCode, msg: Seq<char>, e: ChunkdbClientError) -> bool {
    match code {
        FbRetCode::Success => false,
        FbRetCode::InvalidArgument | FbRetCode::StripIndexOutOfRange => e is InvalidArgument
            && e.text() == msg,
        FbRetCode::NotFound => e is NotFound && e.text() == msg,
        FbRetCode::AlreadyExists => e is AlreadyExists && e.text() == msg,
        FbRetCode::FailedPrecondition => e is FailedPrecondition && e.text() == msg,
        FbRetCode::Aborted => e is Aborted && e.text() == msg,
        FbRetCode::Internal => e is Internal && e.text() == msg,
        FbRetCode::Unavailable => e is Unavailable && e.text() == msg,
        FbRetCode::NotMyRange => e is NotMyRange && e.text() == msg,
        FbRetCode::Other(code) => e is Internal && e.text() == "unknown ret_code "@ + code@ + ": "@
            + msg,
    }
}

/// The text of an optional message, empty where there is none.
pub open spec fn message_text(m: Option<String>) -> Seq<char> {
    match m {
        Some(t) => t@,
        None => ""@,
    }
}

/// Success, or the error that the return code stands for.
pub fn check_ret_code(code: &FbRetCode, error_msg: &Option<String>) -> (r: Result<
    (),
    ChunkdbClientError,
>)
    ensures
        match r {
            Ok(_) => code is Success,
            Err(e) => is_code_error(*code, message_text(*error_msg), e),
        },
{
    let msg = match error_msg {
        Some(t) => t.clone(),
        None => "".to_owned(),
    };
    match code {
        FbRetCode::Success => Ok(()),
        FbRetCode::InvalidArgument => Err(ChunkdbClientError::InvalidArgument(msg)),
        FbRetCode::StripIndexOutOfRange => Err(ChunkdbClientError::InvalidArgument(msg)),
        FbRetCode::NotFound => Err(ChunkdbClientError::NotFound(msg)),
        FbRetCode::AlreadyExists => Err(ChunkdbClientError::AlreadyExists(msg)),
        FbRetCode::FailedPrecondition => Err(ChunkdbClientError::FailedPrecondition(msg)),
        FbRetCode::Aborted => Err(ChunkdbClientError::Aborted(msg)),
        FbRetCode::Internal => Err(ChunkdbClientError::Internal(msg)),
        FbRetCode::Unavailable => Err(ChunkdbClientError::Unavailable(msg)),
        FbRetCode::NotMyRange => Err(ChunkdbClientError::NotMyRange(msg)),
        FbRetCode::Other(code) => {
            let mut text = "unknown ret_code ".to_owned();
            text.append(code.as_str());
            text.append(": ");
            text.append(msg.as_str());
            Err(ChunkdbClientError::Internal(text))
        },
    }
}

/// The calls that are answered with a chunk.
#[derive(Debug, Clone, Copy, PartialEq, Eq, Structural)]
pub enum ChunkCall {
    Allocate,
    Append,
    Query,
    Seal,
    Delete,
    UpdateStrip,
}

/// What is said of a malformed answer to a call.
pub open spec fn malformed(call: ChunkCall) -> Seq<char> {
    match call {
        ChunkCall::Allocate => "allocate_chunk response malformed"@,
        ChunkCall::Append => "append_chunk response malformed"@,
        ChunkCall::Query => "query_chunk response malformed"@,
        ChunkCall::Seal => "seal_chunk response malformed"@,
        ChunkCall::Delete => "delete_chunk response malformed"@,
        ChunkCall::UpdateStrip => "update_chunk_strip response malformed"@,
    }
}

/// An answer that carries a chunk, as far as it could be read.
#[derive(Debug, Clone, PartialEq, Eq)]
pub struct FbChunkResponse {
    pub valid: bool,
    pub ret_code: FbRetCode,
    pub error_msg: Option<String>,
    pub chunk: Option<FbChunk>,
}

/// The chunk that the answer to `call` carries.
pub fn read_chunk_response(call: ChunkCall, resp: &FbChunkResponse) -> (r: Result<
    Option<Chunk>,
    ChunkdbClientError,
>)
    ensures
        match r {
            Ok(c) => {
                &&& resp.valid
                &&& resp.ret_code is Success
                &&& match (c, resp.chunk) {
                    (Some(x), Some(y)) => x@ == chunk_read(y@),
                    (None, None) => true,
                    _ => false,
                }
            },
            Err(e) => if !resp.valid {
                e is Rpc && e.text() == malformed(call)
            } else {
                is_code_error(resp.ret_code, message_text(resp.error_msg), e)
            },
        },
{
    if !resp.valid {
        let text = match call {
            ChunkCall::Allocate => "allocate_chunk response malformed",
            ChunkCall::Append => "append_chunk response malformed",
            ChunkCall::Query => "query_chunk response malformed",
            ChunkCall::Seal => "seal_chunk response malformed",
            ChunkCall::Delete => "delete_chunk response malformed",
            ChunkCall::UpdateStrip => "update_chunk_strip response malformed",
        };
        return Err(ChunkdbClientError::Rpc(text.to_owned()));
    }
    match check_ret_code(&resp.ret_code, &resp.error_msg) {
        Err(e) => Err(e),
        Ok(_) => match &resp.chunk {
            Some(fb) => Ok(Some(parse_fb_chunk(fb))),
            None => Ok(None),
        },
    }
}

/// An answer that carries nothing, as far as it could be read.
#[derive(Debug, Clone, PartialEq, Eq)]
pub struct FbEmptyResponse {
    pub valid: bool,
    pub ret_code: FbRetCode,
    pub error_msg: Option<String>,
}

/// The answer to the deletion of a range.
pub fn read_delete_range_response(resp: &FbEmptyResponse) -> (r: Result<(), ChunkdbClientError>)
    ensures
        match r {
            Ok(_) => resp.valid && resp.ret_code is Success,
            Err(e) => if !resp.valid {
                e is Rpc && e.text() == "delete_chunk_range response malformed"@
            } else {
                is_code_error(resp.ret_code, message_text(resp.error_msg), e)
            },
        },
{
    if !resp.valid {
        return Err(ChunkdbClientError::Rpc("delete_chunk_range response malformed".to_owned()));
    }
    check_ret_code(&resp.ret_code, &resp.error_msg)
}

/// A list of chunks, as far as it could be read.
#[derive(Debug, Clone, PartialEq, Eq)]
pub struct FbListResponse {
    pub valid: bool,
    pub ret_code: FbRetCode,
    pub error_msg: Option<String>,
    pub chunks: Option<Vec<FbChunk>>,
    pub next_token: Option<ChunkId>,
}

pub open spec fn chunk_views(s: Seq<Chunk>) -> Seq<ChunkView> {
    s.map_values(|x: Chunk| x@)
}

pub open spec fn chunks_read(v: Option<Vec<FbChunk>>) -> Seq<ChunkView> {
    match v {
        Some(x) => x@.map_values(|c: FbChunk| chunk_read(c@)),
        None => seq![],
    }
}

/// The chunks and the continuation token of a list.
pub fn read_list_response(resp: &FbListResponse) -> (r: Result<
    ListChunksResponse,
    ChunkdbClientError,
>)
    ensures
        match r {
            Ok(l) => {
                &&& resp.valid
                &&& resp.ret_code is Success
                &&& chunk_views(l.chunks@) == chunks_read(resp.chunks)
                &&& l.next_token == resp.next_token
            },
            Err(e) => if !resp.valid {
                e is Rpc && e.text() == "list_chunks response malformed"@
            } else {
                is_code_error(resp.ret_code, message_text(resp.error_msg), e)
            },
        },
{
    if !resp.valid {
        return Err(ChunkdbClientError::Rpc("list_chunks response malformed".to_owned()));
    }
    match check_ret_code(&resp.ret_code, &resp.error_msg) {
        Err(e) => {
            return Err(e);
        },
        Ok(_) => {},
    }
    let mut chunks: Vec<Chunk> = Vec::new();
    match &resp.chunks {
        None => {
            assert(chunk_views(chunks@) =~= seq![]);
        },
        Some(v) => {
            let ghost f = |c: FbChunk| chunk_read(c@);
            let mut i: usize = 0;
            assert(chunk_views(chunks@) =~= v@.take(0).map_values(f));
            while i < v.len()
                invariant
                    i <= v@.len(),
                    f == (|c: FbChunk| chunk_read(c@)),
                    chunk_views(chunks@) == v@.take(i as int).map_values(f),
                decreases v@.len() - i,
            {
                let c = parse_fb_chunk(&v[i]);
                proof {
                    assert(chunk_views(chunks@.push(c)) =~= chunk_views(chunks@).push(c@));
                    assert(v@.take(i + 1).map_values(f) =~= v@.take(i as int).map_values(f).push(
                        f(v@[i as int]),
                    ));
                }
                chunks.push(c);
                i = i + 1;
            }
            assert(v@.take(i as int) =~= v@);
        },
    }
    Ok(ListChunksResponse { chunks, next_token: resp.next_token })
}

/// The answer's control part; an error where it has none.
pub fn control_part<T>(control: Option<T>, rpc_endpoint: &str) -> (r: Result<T, ChunkdbClientError>)
    ensures
        match control {
            Some(c) => r == Ok::<T, ChunkdbClientError>(c),
            None => r matches Err(e) && e is Rpc && e.text()
                == "response missing control buffer from "@ + rpc_endpoint@,
        },
{
    match control {
        Some(c) => Ok(c),
        None => {
            let mut text = "response missing control buffer from ".to_owned();
            text.append(rpc_endpoint);
            Err(ChunkdbClientError::Rpc(text))
        },
    }
}

/// The error for a failed transport call, which says `detail`.
pub fn rpc_error_to_client(detail: &str) -> (e: ChunkdbClientError)
    ensures
        e is Rpc,
        e.text() == "rpc error: "@ + detail@,
{
    let mut text = "rpc error: ".to_owned();
    text.append(detail);
    ChunkdbClientError::Rpc(text)
}

/// The error for an endpoint that cannot be used, for `reason`.
pub fn invalid_endpoint_error(rpc_endpoint: &str, reason: &str) -> (e: ChunkdbClientError)
    ensures
        e is Unreachable,
        e.text() == "invalid endpoint "@ + rpc_endpoint@ + ": "@ + reason@,
{
    let mut text = "invalid endpoint ".to_owned();
    text.append(rpc_endpoint);
    text.append(": ");
    text.append(reason);
    ChunkdbClientError::Unreachable(text)
}

/// What is said of a connection to `host`:`port` that failed with `detail`.
pub open spec fn connect_failure(host: Seq<char>, port: Seq<char>, detail: Seq<char>) -> Seq<char> {
    "rpc connect to "@ + host + ":"@ + port + ": "@ + detail
}

/// The text of a failed connection.
pub fn connect_failure_text(host: &str, port: &str, detail: &str) -> (s: String)
    ensures
        s@ == connect_failure(host@, port@, detail@),
{
    let mut text = "rpc connect to ".to_owned();
    text.append(host);
    text.append(":");
    text.append(port);
    text.append(": ");
    text.append(detail);
    text
}

/// What is sent to allocate or append strips.
#[derive(Debug, Clone, Copy, PartialEq, Eq)]
pub struct FbAllocateArgs {
    pub id: u64,
    pub rpc_create_nano: u64,
    pub chunk_id: Option<ChunkId>,
    pub write_granularity: u32,
    pub strip_count: u32,
    pub strip_type: FbStripType,
    pub data_num: u32,
    pub code_num: u32,
    pub copy_count: u32,
    pub chunk_type: FbChunkType,
}

pub fn allocate_args(req_id: u64, req: &AllocateChunkRequest) -> (a: FbAllocateArgs)
    ensures
        a == (FbAllocateArgs {
            id: req_id,
            rpc_create_nano: 0,
            chunk_id: req.chunk_id,
            write_granularity: req.write_granularity,
            strip_count: req.strip_count,
            strip_type: strip_type_wire(known_strip_type(req.strip_type)),
            data_num: req.data_num,
            code_num: req.code_num,
            copy_count: req.copy_count,
            chunk_type: chunk_type_wire(known_chunk_type(req.chunk_type)),
        }),
{
    let strip_type = match req.strip_type {
        Some(t) => t,
        None => StripType::Mirror,
    };
    let chunk_type = match req.chunk_type {
        Some(t) => t,
        None => ChunkType::Repo,
    };
    FbAllocateArgs {
        id: req_id,
        rpc_create_nano: 0,
        chunk_id: req.chunk_id,
        write_granularity: req.write_granularity,
        strip_count: req.strip_count,
        strip_type: strip_type_to_fb(strip_type),
        data_num: req.data_num,
        code_num: req.code_num,
        copy_count: req.copy_count,
        chunk_type: chunk_type_to_fb(chunk_type),
    }
}

#[derive(Debug, Clone, Copy, PartialEq, Eq)]
pub struct FbAppendArgs {
    pub id: u64,
    pub rpc_create_nano: u64,
    pub chunk_id: Option<ChunkId>,
    pub strip_size: u32,
    pub strip_count: u32,
    pub strip_type: FbStripType,
    pub data_num: u32,
    pub code_num: u32,
    pub copy_count: u32,
}

pub fn append_args(req_id: u64, req: &AppendChunkRequest) -> (a: FbAppendArgs)
    ensures
        a == (FbAppendArgs {
            id: req_id,
            rpc_create_nano: 0,
            chunk_id: req.chunk_id,
            strip_size: req.strip_size,
            strip_count: req.strip_count,
            strip_type: strip_type_wire(known_strip_type(req.strip_type)),
            data_num: req.data_num,
            code_num: req.code_num,
            copy_count: req.copy_count,
        }),
{
    let strip_type = match req.strip_type {
        Some(t) => t,
        None => StripType::Mirror,
    };
    FbAppendArgs {
        id: req_id,
        rpc_create_nano: 0,
        chunk_id: req.chunk_id,
        strip_size: req.strip_size,
        strip_count: req.strip_count,
        strip_type: strip_type_to_fb(strip_type),
        data_num: req.data_num,
        code_num: req.code_num,
        copy_count: req.copy_count,
    }
}

/// What is sent to query or delete a chunk.
#[derive(Debug, Clone, Copy, PartialEq, Eq)]
pub struct FbChunkIdArgs {
    pub id: u64,
    pub rpc_create_nano: u64,
    pub chunk_id: Option<ChunkId>,
}

pub fn query_args(req_id: u64, req: &QueryChunkRequest) -> (a: FbChunkIdArgs)
    ensures
        a == (FbChunkIdArgs { id: req_id, rpc_create_nano: 0, chunk_id: req.chunk_id }),
{
    FbChunkIdArgs { id: req_id, rpc_create_nano: 0, chunk_id: req.chunk_id }
}

pub fn delete_args(req_id: u64, req: &DeleteChunkRequest) -> (a: FbChunkIdArgs)
    ensures
        a == (FbChunkIdArgs { id: req_id, rpc_create_nano: 0, chunk_id: req.chunk_id }),
{
    FbChunkIdArgs { id: req_id, rpc_create_nano: 0, chunk_id: req.chunk_id }
}

#[derive(Debug, Clone, Copy, PartialEq, Eq)]
pub struct FbSealArgs {
    pub id: u64,
    pub rpc_create_nano: u64,
    pub chunk_id: Option<ChunkId>,
    pub seal_length: u32,
}

pub fn seal_args(req_id: u64, req: &SealChunkRequest) -> (a: FbSealArgs)
    ensures
        a == (FbSealArgs {
            id: req_id,
            rpc_create_nano: 0,
            chunk_id: req.chunk_id,
            seal_length: req.seal_length,
        }),
{
    FbSealArgs {
        id: req_id,
        rpc_create_nano: 0,
        chunk_id: req.chunk_id,
        seal_length: req.seal_length,
    }
}

#[derive(Debug, Clone, Copy, PartialEq, Eq)]
pub struct FbDeleteRangeArgs {
    pub id: u64,
    pub rpc_create_nano: u64,
    pub chunk_id: Option<ChunkId>,
    pub chunk_offset: u64,
    pub chunk_size: u64,
}

pub fn delete_range_args(req_id: u64, req: &DeleteChunkRangeRequest) -> (a: FbDeleteRangeArgs)
    ensures
        a == (FbDeleteRangeArgs {
            id: req_id,
            rpc_create_nano: 0,
            chunk_id: req.chunk_id,
            chunk_offset: req.chunk_offset,
            chunk_size: req.chunk_size,
        }),
{
    FbDeleteRangeArgs {
        id: req_id,
        rpc_create_nano: 0,
        chunk_id: req.chunk_id,
        chunk_offset: req.chunk_offset,
        chunk_size: req.chunk_size,
    }
}

#[derive(Debug, Clone, PartialEq, Eq)]
pub struct FbUpdateStripArgs {
    pub id: u64,
    pub rpc_create_nano: u64,
    pub chunk_id: Option<ChunkId>,
    pub strip_index: u32,
    pub strip: Option<FbChunkStrip>,
}

pub fn update_strip_args(req_id: u64, req: &UpdateChunkStripRequest) -> (a: FbUpdateStripArgs)
    ensures
        a.id == req_id,
        a.rpc_create_nano == 0,
        a.chunk_id == req.chunk_id,
        a.strip_index == req.strip_index,
        match (a.strip, req.strip) {
            (Some(x), Some(y)) => x@ == strip_wire(y@),
            (None, None) => true,
            _ => false,
        },
{
    let strip = match &req.strip {
        Some(s) => Some(build_chunk_strip(s)),
        None => None,
    };
    FbUpdateStripArgs {
        id: req_id,
        rpc_create_nano: 0,
        chunk_id: req.chunk_id,
        strip_index: req.strip_index,
        strip,
    }
}

#[derive(Debug, Clone, Copy, PartialEq, Eq)]
pub struct FbListArgs {
    pub id: u64,
    pub rpc_create_nano: u64,
    pub start_token: Option<ChunkId>,
    pub partition: u32,
    pub max_keys: u32,
}

pub fn list_args(req_id: u64, req: &ListChunksRequest) -> (a: FbListArgs)
    ensures
        a == (FbListArgs {
            id: req_id,
            rpc_create_nano: 0,
            start_token: req.start_token,
            partition: req.partition,
            max_keys: req.max_keys,
        }),
{
    FbListArgs {
        id: req_id,
        rpc_create_nano: 0,
        start_token: req.start_token,
        partition: req.partition,
        max_keys: req.max_keys,
    }
}

/// The kinds of strips, chunks and parity keep their names on the wire, and are
/// read back as what they were.
pub proof fn lemma_kinds_keep_their_names(t: StripType, c: ChunkType, s: EcState)
    ensures
        strip_type_wire(StripType::Mirror) == FbStripType::Mirror,
        strip_type_wire(StripType::Ec) == FbStripType::Ec,
        strip_type_read(strip_type_wire(t)) == t,
        chunk_type_wire(ChunkType::Repo) == FbChunkType::Repo,
        chunk_type_wire(ChunkType::Wal) == FbChunkType::Wal,
        chunk_type_wire(ChunkType::BtreePage) == FbChunkType::BtreePage,
        chunk_type_wire(ChunkType::PageIndex) == FbChunkType::PageIndex,
        chunk_type_read(chunk_type_wire(c)) == c,
        ec_state_wire(EcState::NoParity) == FbEcState::NoParity,
        ec_state_wire(EcState::Parity) == FbEcState::Parity,
        ec_state_read(ec_state_wire(s)) == s,
        chunk_state_read(FbChunkState::Active) == ChunkState::Active,
        chunk_state_read(FbChunkState::Sealed) == ChunkState::Sealed,
        chunk_state_read(FbChunkState::Deleted) == ChunkState::Deleted,
{
}

/// What is not known to the reader or not said by the sender is taken for the
/// plainest kind: mirrored, a repository's, without parity, not yet active.
pub proof fn lemma_unknown_kinds(
    t: FbStripType,
    c: FbChunkType,
    s: FbEcState,
    k: FbChunkState,
    named: (StripType, ChunkType, EcState),
)
    ensures
        t !is Ec ==> strip_type_read(t) == StripType::Mirror,
        c !is Wal && c !is BtreePage && c !is PageIndex ==> chunk_type_read(c) == ChunkType::Repo,
        s !is Parity ==> ec_state_read(s) == EcState::NoParity,
        k !is Active && k !is Sealed && k !is Deleted ==> chunk_state_read(k) == ChunkState::Init,
        known_strip_type(None) == StripType::Mirror,
        known_chunk_type(None) == ChunkType::Repo,
        known_ec_state(None) == EcState::NoParity,
        known_strip_type(Some(named.0)) == named.0,
        known_chunk_type(Some(named.1)) == named.1,
        known_ec_state(Some(named.2)) == named.2,
{
}

/// A segment on the wire is on the same disk, at the same place, and belongs to
/// the same chunk; an id that is missing is sent as zero.
pub proof fn lemma_segment_stays_in_place(s: Segment, f: FbSegment)
    ensures
        s.disk_id matches Some(d) ==> segment_wire(s).disk_id == d,
        s.disk_id is None ==> segment_wire(s).disk_id == (DiskId { high: 0, low: 0 }),
        s.owner_chunk matches Some(c) ==> segment_wire(s).owner_chunk == c,
        s.owner_chunk is None ==> segment_wire(s).owner_chunk == (ChunkId { high: 0, low: 0 }),
        segment_wire(s).zone_index == s.zone_index,
        segment_wire(s).unit_offset == s.unit_offset,
        segment_wire(s).unit_count == s.unit_count,
        segment_wire(s).allocation_ts == s.allocation_ts,
        segment_read(f).disk_id == Some(f.disk_id),
        segment_read(f).owner_chunk == Some(f.owner_chunk),
        segment_read(f).zone_index == f.zone_index,
        segment_read(f).unit_offset == f.unit_offset,
        segment_read(f).unit_count == f.unit_count,
        segment_read(f).allocation_ts == f.allocation_ts,
{
}

/// Segments are sent and read one by one, all of them and in their order.
pub proof fn lemma_segments_one_by_one(s: Seq<Segment>, f: Seq<FbSegment>)
    ensures
        segments_wire(s).len() == s.len(),
        forall|i: int| 0 <= i < s.len() ==> #[trigger] segments_wire(s)[i] == segment_wire(s[i]),
        segments_read(Some(f)).len() == f.len(),
        forall|i: int|
            0 <= i < f.len() ==> #[trigger] segments_read(Some(f))[i] == segment_read(f[i]),
        segments_read(None).len() == 0,
{
}

/// A strip on the wire says of itself what the strip says.
pub proof fn lemma_strip_sent_as_it_is(s: ChunkStripView)
    ensures
        ({
            let w = strip_wire(s);
            &&& w.chunk_offset == s.chunk_offset
            &&& w.strip_sequence == s.strip_sequence
            &&& w.unit_kb == s.unit_kb
            &&& w.capacity == s.capacity
            &&& w.create_ts_ms == s.create_ts_ms
            &&& w.sealed_ts_ms == s.sealed_ts_ms
            &&& w.sealed_length == s.sealed_length
            &&& s.usage_bitmap.len() > 0 ==> w.usage_bitmap == Some(s.usage_bitmap)
            &&& s.usage_bitmap.len() == 0 ==> w.usage_bitmap is None
            &&& s.strip_type == Some(StripType::Ec) <==> w.strip_type is Ec
            &&& s.strip_type != Some(StripType::Ec) <==> w.strip_type is Mirror
        }),
        s.strip is None ==> strip_wire(s).strip_body is Absent,
        s.strip matches Some(StripView::Mirror { segments }) ==> strip_wire(s).strip_body
            == FbBodyView::Mirror(Some(Some(segments_wire(segments)))),
        s.strip matches Some(StripView::Ec { data_num, code_num, ec_state, segments }) ==> (strip_wire(
            s,
        ).strip_body matches FbBodyView::Ec(Some(e)) && e.data_num == data_num && e.code_num
            == code_num && (e.ec_state is Parity <==> ec_state == Some(EcState::Parity))
            && e.segments == Some(segments_wire(segments))),
{
}

/// A strip is read as what its wire form says of it.
pub proof fn lemma_strip_read_as_it_is(f: FbChunkStripView)
    ensures
        ({
            let s = strip_read(f);
            &&& s.chunk_offset == f.chunk_offset
            &&& s.strip_sequence == f.strip_sequence
            &&& s.unit_kb == f.unit_kb
            &&& s.capacity == f.capacity
            &&& s.create_ts_ms == f.create_ts_ms
            &&& s.sealed_ts_ms == f.sealed_ts_ms
            &&& s.sealed_length == f.sealed_length
            &&& f.usage_bitmap matches Some(v) ==> s.usage_bitmap == v
            &&& f.usage_bitmap is None ==> s.usage_bitmap.len() == 0
            &&& s.strip_type == Some(StripType::Ec) <==> f.strip_type is Ec
            &&& s.strip is None <==> f.strip_body is Absent
            &&& s.strip is Some && s.strip->0 is Mirror <==> f.strip_body is Mirror
        }),
        f.strip_body matches FbBodyView::Mirror(Some(Some(v))) ==> strip_read(f).strip == Some(
            StripView::Mirror { segments: segments_read(Some(v)) },
        ),
        f.strip_body matches FbBodyView::Ec(Some(e)) ==> (strip_read(f).strip matches Some(
            StripView::Ec { data_num, code_num, ec_state, segments },
        ) && data_num == e.data_num && code_num == e.code_num && (ec_state == Some(EcState::Parity)
            <==> e.ec_state is Parity) && ec_state is Some && segments == segments_read(e.segments)),
        f.strip_body matches FbBodyView::Ec(None) ==> (strip_read(f).strip matches Some(
            StripView::Ec { data_num, code_num, segments, .. },
        ) && data_num == 0 && code_num == 0 && segments.len() == 0),
{
}

/// A chunk is read with the strips that its wire form lists, each as what its
/// own wire form says, and with its id, times and lengths.
pub proof fn lemma_chunk_read_as_it_is(f: FbChunkView)
    ensures
        ({
            let c = chunk_read(f);
            &&& c.id == f.id
            &&& c.create_ts_ms == f.create_ts_ms
            &&& c.sealed_ts_ms == f.sealed_ts_ms
            &&& c.capacity == f.capacity
            &&& c.sealed_length == f.sealed_length
            &&& c.state == chunk_state_read(f.state)
            &&& c.chunk_type == chunk_type_read(f.chunk_type)
            &&& f.strips matches Some(v) ==> c.strips.len() == v.len() && forall|i: int|
                0 <= i < v.len() ==> #[trigger] c.strips[i] == strip_read(v[i])
            &&& f.strips is None ==> c.strips.len() == 0
        }),
{
}

/// A chunk whose strips are sent is read back with all these strips, if their
/// parts are known.
pub proof fn lemma_chunk_round_trip(f: FbChunkView, strips: Seq<ChunkStripView>)
    requires
        forall|i: int| 0 <= i < strips.len() ==> strip_complete(#[trigger] strips[i]),
        f.strips == Some(strips.map_values(|s: ChunkStripView| strip_wire(s))),
    ensures
        chunk_read(f).strips == strips,
{
    let r = chunk_read(f).strips;
    assert forall|i: int| 0 <= i < strips.len() implies r[i] == strips[i] by {
        lemma_strip_round_trip(strips[i]);
    }
    assert(r =~= strips);
}

/// A strip all of whose parts are known is one with a type, whose segments name
/// their disks and chunks.
pub proof fn lemma_complete_strip(s: ChunkStripView, i: int)
    ensures
        s.strip_type is Some && s.strip is None ==> strip_complete(s),
        strip_complete(s) ==> s.strip_type is Some,
        s.strip matches Some(StripView::Mirror { segments }) ==> (strip_complete(s) && 0 <= i
            < segments.len() ==> segments[i].disk_id is Some && segments[i].owner_chunk is Some),
        s.strip matches Some(StripView::Ec { segments, .. }) ==> (strip_complete(s) && 0 <= i
            < segments.len() ==> segments[i].disk_id is Some && segments[i].owner_chunk is Some),
{
}

/// A page lists as many chunks as the answer, each as what its wire form says.
pub proof fn lemma_page_read_one_by_one(v: Vec<FbChunk>, chunks: Seq<Chunk>)
    ensures
        chunks_read(Some(v)).len() == v@.len(),
        forall|i: int| 0 <= i < v@.len() ==> #[trigger] chunks_read(Some(v))[i] == chunk_read(v@[i]@),
        chunks_read(None).len() == 0,
        chunk_views(chunks).len() == chunks.len(),
        forall|i: int| 0 <= i < chunks.len() ==> #[trigger] chunk_views(chunks)[i] == chunks[i]@,
{
}

/// What is on the wire is seen as it is.
pub proof fn lemma_wire_is_shown(s: FbChunkStrip, c: FbChunk)
    ensures
        s@.chunk_offset == s.chunk_offset,
        s@.strip_sequence == s.strip_sequence,
        s@.unit_kb == s.unit_kb,
        s@.capacity == s.capacity,
        s@.create_ts_ms == s.create_ts_ms,
        s@.sealed_ts_ms == s.sealed_ts_ms,
        s@.sealed_length == s.sealed_length,
        s@.strip_type == s.strip_type,
        s.usage_bitmap matches Some(v) ==> s@.usage_bitmap == Some(v@),
        s.usage_bitmap is None ==> s@.usage_bitmap is None,
        s.strip_body is Absent <==> s@.strip_body is Absent,
        s.strip_body matches FbStripBody::Mirror(Some(m)) ==> (m.segments matches Some(v)
            ==> s@.strip_body == FbBodyView::Mirror(Some(Some(v@)))),
        s.strip_body matches FbStripBody::Ec(Some(e)) ==> (s@.strip_body matches FbBodyView::Ec(
            Some(w),
        ) && w.data_num == e.data_num && w.code_num == e.code_num && w.ec_state == e.ec_state && (
        e.segments matches Some(v) ==> w.segments == Some(v@)) && (e.segments is None
            ==> w.segments is None)),
        c@.id == c.id,
        c@.state == c.state,
        c@.create_ts_ms == c.create_ts_ms,
        c@.sealed_ts_ms == c.sealed_ts_ms,
        c@.capacity == c.capacity,
        c@.sealed_length == c.sealed_length,
        c@.chunk_type == c.chunk_type,
        c.strips is None <==> c@.strips is None,
        c.strips matches Some(v) ==> c@.strips->0.len() == v@.len() && forall|i: int|
            0 <= i < v@.len() ==> #[trigger] c@.strips->0[i] == v@[i]@,
{
}

/// Every return code but success is an error of its own kind, with the
/// service's message.
pub proof fn lemma_codes_are_errors(code: FbRetCode, msg: Seq<char>, e: ChunkdbClientError)
    ensures
        is_code_error(code, msg, e) ==> code !is Success,
        is_code_error(code, msg, e) && code !is Other ==> e.text() == msg,
        is_code_error(FbRetCode::InvalidArgument, msg, e) ==> e is InvalidArgument,
        is_code_error(FbRetCode::StripIndexOutOfRange, msg, e) ==> e is InvalidArgument,
        is_code_error(FbRetCode::NotFound, msg, e) ==> e is NotFound,
        is_code_error(FbRetCode::AlreadyExists, msg, e) ==> e is AlreadyExists,
        is_code_error(FbRetCode::FailedPrecondition, msg, e) ==> e is FailedPrecondition,
        is_code_error(FbRetCode::Aborted, msg, e) ==> e is Aborted,
        is_code_error(FbRetCode::Internal, msg, e) ==> e is Internal,
        is_code_error(FbRetCode::Unavailable, msg, e) ==> e is Unavailable,
        is_code_error(FbRetCode::NotMyRange, msg, e) ==> e is NotMyRange,
        code matches FbRetCode::Other(name) ==> (is_code_error(code, msg, e) ==> e is Internal
            && e.text() == "unknown ret_code "@ + name@ + ": "@ + msg),
{
}

/// The texts of the transport's own errors.
pub proof fn lemma_transport_texts(host: Seq<char>, port: Seq<char>, detail: Seq<char>, m: String)
    ensures
        malformed(ChunkCall::Allocate) == "allocate_chunk response malformed"@,
        malformed(ChunkCall::Append) == "append_chunk response malformed"@,
        malformed(ChunkCall::Query) == "query_chunk response malformed"@,
        malformed(ChunkCall::Seal) == "seal_chunk response malformed"@,
        malformed(ChunkCall::Delete) == "delete_chunk response malformed"@,
        malformed(ChunkCall::UpdateStrip) == "update_chunk_strip response malformed"@,
        connect_failure(host, port, detail) == "rpc connect to "@ + host + ":"@ + port + ": "@
            + detail,
        message_text(Some(m)) == m@,
        message_text(None) == ""@,
{
}

} // verus!

//! Writing a chunk: which strip is open, when the next one is opened, and
//! what becomes of the chunk in the end.

use vstd::prelude::*;

#[allow(unused_imports)]
use crate::chunk::client;
use crate::chunk::client::div_ceil;
use crate::chunk::config::{ChunkClientConfig, EcScheme};
use crate::chunk::error::{prefixed, IoError};
#[allow(unused_imports)]
use crate::lists;
use crate::protocol::{
    AppendChunkRequest, Chunk, ChunkId, DeleteChunkRequest, Location, SealChunkRequest, StripType,
};

verus! {

/// Whether the chunk takes more data.
#[derive(Debug, Clone, Copy, PartialEq, Eq, Structural)]
pub enum FeedStatus {
    Continue,
    Pause,
}

/// The allocation unit in kilobytes.
pub open spec fn unit_kb(config: ChunkClientConfig) -> u32 {
    (config.read_buffer_size / 1024) as u32
}

/// The allocation unit in bytes.
pub open spec fn unit_bytes(config: ChunkClientConfig) -> int {
    unit_kb(config) * 1024
}

/// The data bytes of a strip.
pub open spec fn strip_capacity(scheme: EcScheme, config: ChunkClientConfig) -> int {
    scheme.data_num * unit_bytes(config)
}

/// Strips of this scheme and configuration can hold data.
pub open spec fn strips_usable(scheme: EcScheme, config: ChunkClientConfig) -> bool {
    0 < strip_capacity(scheme, config) <= u64::MAX
}

/// The strips that an object of `total` bytes needs beyond the first.
pub open spec fn further_strips(total: int, capacity: int) -> int {
    if client::ceil_div(total, capacity) == 0 {
        0
    } else {
        client::ceil_div(total, capacity) - 1
    }
}

fn unit_bytes_of(config: &ChunkClientConfig) -> (n: u64)
    ensures
        n == unit_bytes(*config),
{
    let kb: u32 = #[verifier::truncate] ((config.read_buffer_size / 1024) as u32);
    kb as u64 * 1024
}

fn strip_capacity_of(scheme: &EcScheme, config: &ChunkClientConfig) -> (n: u64)
    requires
        strips_usable(*scheme, *config),
    ensures
        n == strip_capacity(*scheme, *config),
{
    let unit: u64 = unit_bytes_of(config);
    let data_num: u64 = scheme.data_num as u64;
    data_num * unit
}

/// The strips that an object of known size needs beyond the first.
pub fn compute_strips_remaining(
    object_size: Option<u64>,
    ec_scheme: &EcScheme,
    config: &ChunkClientConfig,
) -> (r: Option<usize>)
    requires
        object_size is Some ==> strips_usable(*ec_scheme, *config),
        object_size matches Some(total) ==> client::ceil_div(
            total as int,
            strip_capacity(*ec_scheme, *config),
        ) <= usize::MAX,
    ensures
        match object_size {
            Some(total) => r matches Some(n) && n == further_strips(
                total as int,
                strip_capacity(*ec_scheme, *config),
            ),
            None => r is None,
        },
{
    match object_size {
        Some(total) => {
            let capacity: u64 = strip_capacity_of(ec_scheme, config);
            let n: u64 = div_ceil(total, capacity);
            let strips: usize = n as usize;
            Some(strips.saturating_sub(1))
        },
        None => None,
    }
}

/// The first strip and the further ones just hold the object.
pub proof fn lemma_strips_hold_object(total: int, capacity: int)
    requires
        total > 0,
        capacity > 0,
    ensures
        (1 + further_strips(total, capacity)) * capacity >= total,
        further_strips(total, capacity) * capacity < total,
{
    let q = total / capacity;
    let r = total % capacity;
    assert(total == capacity * q + r && 0 <= r < capacity && q >= 0) by (nonlinear_arith)
        requires
            q == total / capacity,
            r == total % capacity,
            capacity > 0,
            total > 0,
    ;
    if r == 0 {
        assert(q > 0) by (nonlinear_arith)
            requires
                total == capacity * q,
                total > 0,
                capacity > 0,
        ;
        assert((1 + (q - 1)) * capacity >= total && (q - 1) * capacity < total) by (nonlinear_arith)
            requires
                total == capacity * q,
                capacity > 0,
        ;
    } else {
        assert((1 + q) * capacity >= total && q * capacity < total) by (nonlinear_arith)
            requires
                total == capacity * q + r,
                0 < r < capacity,
        ;
    }
}

/// The request to append one strip to a chunk.
pub open spec fn append_one(chunk_id: ChunkId, scheme: EcScheme) -> AppendChunkRequest {
    AppendChunkRequest {
        chunk_id: Some(chunk_id),
        strip_size: scheme.data_num as u32,
        strip_count: 1,
        strip_type: Some(StripType::Ec),
        data_num: scheme.data_num as u32,
        code_num: scheme.code_num as u32,
        copy_count: 0,
    }
}

/// The request to append one strip to a chunk.
pub fn append_request(chunk_id: ChunkId, ec_scheme: EcScheme) -> (r: AppendChunkRequest)
    ensures
        r == append_one(chunk_id, ec_scheme),
        r.chunk_id == Some(chunk_id),
        r.strip_count == 1,
        r.strip_type == Some(StripType::Ec),
        r.data_num == ec_scheme.data_num as u32,
        r.code_num == ec_scheme.code_num as u32,
        r.strip_size == ec_scheme.data_num as u32,
        r.copy_count == 0,
{
    let data_num: u32 = #[verifier::truncate] (ec_scheme.data_num as u32);
    let code_num: u32 = #[verifier::truncate] (ec_scheme.code_num as u32);
    AppendChunkRequest {
        chunk_id: Some(chunk_id),
        strip_size: data_num,
        strip_count: 1,
        strip_type: Some(StripType::Ec),
        data_num,
        code_num,
        copy_count: 0,
    }
}

/// The chunk in the answer to an append.
pub fn appended_chunk(chunk: Option<Chunk>) -> (r: Result<Chunk, IoError>)
    ensures
        match chunk {
            Some(c) => r == Ok::<Chunk, IoError>(c),
            None => r matches Err(e) && e.is_allocation_failed(
                "append_chunk response missing chunk"@,
            ),
        },
{
    match chunk {
        Some(c) => Ok(c),
        None => Err(IoError::allocation_failed("append_chunk response missing chunk")),
    }
}

/// What came of parity that was waited for: its own result, or that its task
/// was lost, which says `detail`.
pub fn parity_outcome(joined: Result<Result<(), IoError>, String>) -> (r: Result<(), IoError>)
    ensures
        match joined {
            Ok(x) => r == x,
            Err(detail) => r matches Err(e) && e.is_internal("parity task panicked: "@ + detail@),
        },
{
    match joined {
        Ok(x) => x,
        Err(detail) => Err(
            IoError::Internal(prefixed("parity task panicked: ", detail.as_str())),
        ),
    }
}

/// What the task that appends strips ahead of the writer does next.
#[derive(Debug, Clone, Copy, PartialEq, Eq, Structural)]
pub enum PrefetchStep {
    /// No more strips are needed.
    Stop,
    /// Enough strips are ahead; look again later.
    Wait,
    /// Append one strip.
    Append,
}

/// How far strips have been appended ahead of the writer.
#[derive(Debug, Clone, Copy, PartialEq, Eq)]
pub struct StripPrefetch {
    pub chunk_id: ChunkId,
    pub ec_scheme: EcScheme,
    /// For an object of known size, the strips still to append.
    pub strips_remaining: Option<usize>,
    pub next_strip_index: u32,
    pub strips_per_chunk: u32,
    pub prealloc_depth: u32,
}

impl StripPrefetch {
    /// Every strip that the object or the chunk needs has been appended.
    pub open spec fn done(self) -> bool {
        self.strips_remaining == Some(0usize) || self.next_strip_index >= self.strips_per_chunk
    }

    /// How many strips are allocated beyond the one being written.
    pub open spec fn lag(self, written: u32) -> int {
        if self.next_strip_index >= written {
            self.next_strip_index - written
        } else {
            0
        }
    }

    /// The next step, while the writer is at strip `written`.
    pub fn step(&self, written: u32) -> (s: PrefetchStep)
        ensures
            s == (if self.done() {
                PrefetchStep::Stop
            } else if self.lag(written) >= self.prealloc_depth {
                PrefetchStep::Wait
            } else {
                PrefetchStep::Append
            }),
    {
        if let Some(remaining) = self.strips_remaining {
            if remaining == 0 {
                return PrefetchStep::Stop;
            }
        }
        if self.next_strip_index >= self.strips_per_chunk {
            return PrefetchStep::Stop;
        }
        let lag: u32 = self.next_strip_index.saturating_sub(written);
        if lag >= self.prealloc_depth {
            return PrefetchStep::Wait;
        }
        PrefetchStep::Append
    }

    /// Takes note of a strip that was appended and handed over.
    pub fn appended(&mut self)
        requires
            !old(self).done(),
        ensures
            *final(self) == (StripPrefetch {
                strips_remaining: match old(self).strips_remaining {
                    Some(n) => Some((n - 1) as usize),
                    None => None,
                },
                next_strip_index: (old(self).next_strip_index + 1) as u32,
                ..*old(self)
            }),
    {
        self.next_strip_index = self.next_strip_index + 1;
        self.strips_remaining = match self.strips_remaining {
            Some(n) => Some(n.saturating_sub(1)),
            None => None,
        };
    }
}

/// A strip is appended only while fewer than the configured number are ahead
/// of the writer, the chunk has room for it, and the object needs it.
pub proof fn lemma_prefetch_bounded(p: StripPrefetch, written: u32)
    requires
        !p.done(),
        p.lag(written) < p.prealloc_depth,
    ensures
        p.next_strip_index < p.strips_per_chunk,
        p.next_strip_index < written + p.prealloc_depth,
        p.strips_remaining matches Some(n) ==> n > 0,
{
}

/// What a push does first.
#[derive(Debug, Clone, Copy, PartialEq, Eq, Structural)]
pub enum PushStep {
    /// Finish the full strip.
    FinishStrip,
    /// Write the block to the open strip.
    WriteBlock,
}

/// What a push does once the full strip is finished.
#[derive(Debug, Clone, Copy, PartialEq, Eq, Structural)]
pub enum RotateStep {
    /// The chunk is full; the block was not written.
    Pause,
    /// Open the next strip, then write the block.
    OpenNext,
}

/// How to get the next strip.
#[derive(Debug, Clone, Copy, PartialEq, Eq, Structural)]
pub enum NextStrip {
    /// It is there and has been opened.
    Opened(u32),
    /// Wait for the task that appends strips ahead.
    AwaitPrefetch,
    /// Append it now.
    AppendInline,
}

/// What becomes of a chunk that is sealed.
#[derive(Debug, Clone, PartialEq, Eq)]
pub enum SealPlan {
    /// Wait for the parity, seal the chunk, and report the location.
    Seal { parity: Vec<u64>, request: SealChunkRequest, location: Location },
    /// Nothing was written: delete the chunk, and report an empty location.
    DeleteEmpty { request: DeleteChunkRequest, location: Location },
}

/// What happened to a chunk that is being sealed.
#[derive(Debug, PartialEq, Eq)]
pub enum SealEvent {
    /// Nothing yet.
    Started,
    /// The parity that was waited for ended.
    ParityEnded(Result<(), IoError>),
    /// The request to seal or to delete the chunk was answered.
    Answered(Result<(), IoError>),
}

/// What is done next with a chunk that is being sealed.
#[derive(Debug, Clone, PartialEq, Eq)]
pub enum SealStep {
    /// Wait for this parity.
    AwaitParity(u64),
    Seal(SealChunkRequest),
    Delete(DeleteChunkRequest),
    Done(Location),
    Failed(IoError),
}

/// A chunk that is being sealed: the plan, and how much of its parity is there.
#[derive(Debug, Clone, PartialEq, Eq)]
pub struct Sealing {
    pub plan: SealPlan,
    pub awaited: usize,
}

impl Sealing {
    /// What is to be done with no failure so far: every parity in order, and
    /// the request once all of it is there.
    pub open spec fn pending(self) -> SealStep {
        match self.plan {
            SealPlan::Seal { parity, request, .. } => if self.awaited < parity@.len() {
                SealStep::AwaitParity(parity@[self.awaited as int])
            } else {
                SealStep::Seal(request)
            },
            SealPlan::DeleteEmpty { request, .. } => SealStep::Delete(request),
        }
    }

    /// How much parity is there after an event.
    pub open spec fn awaited_after(self, event: SealEvent) -> int {
        if event matches SealEvent::ParityEnded(Ok(_)) && self.pending() is AwaitParity {
            self.awaited + 1
        } else {
            self.awaited as int
        }
    }

    /// The state after an event, and what is done then. Parity that failed
    /// ends the sealing with its error; how the deletion of an empty chunk
    /// ended does not matter.
    pub open spec fn stepped(self, event: SealEvent) -> (Sealing, SealStep) {
        let after = Sealing { plan: self.plan, awaited: self.awaited_after(event) as usize };
        let step = match event {
            SealEvent::Started => after.pending(),
            SealEvent::ParityEnded(Ok(_)) => after.pending(),
            SealEvent::ParityEnded(Err(e)) => SealStep::Failed(e),
            SealEvent::Answered(outcome) => match self.plan {
                SealPlan::Seal { location, .. } => match outcome {
                    Ok(_) => SealStep::Done(location),
                    Err(e) => SealStep::Failed(e),
                },
                SealPlan::DeleteEmpty { location, .. } => SealStep::Done(location),
            },
        };
        (after, step)
    }

    /// The state after the parity that ended as `outcomes` say, in order, and
    /// what is done then. What is not waited for any more does not count.
    pub open spec fn after_parity(plan: SealPlan, outcomes: Seq<Result<(), IoError>>) -> (
        Sealing,
        SealStep,
    )
        decreases outcomes.len(),
    {
        if outcomes.len() == 0 {
            (Sealing { plan, awaited: 0 }).stepped(SealEvent::Started)
        } else {
            let before = Self::after_parity(plan, outcomes.drop_last());
            if before.1 is AwaitParity {
                before.0.stepped(SealEvent::ParityEnded(outcomes.last()))
            } else {
                before
            }
        }
    }

    pub fn new(plan: SealPlan) -> (s: Self)
        ensures
            s.plan == plan,
            s.awaited == 0,
    {
        Sealing { plan, awaited: 0 }
    }

    fn next(&self) -> (step: SealStep)
        ensures
            step == self.pending(),
    {
        match &self.plan {
            SealPlan::Seal { parity, request, .. } => if self.awaited < parity.len() {
                SealStep::AwaitParity(parity[self.awaited])
            } else {
                SealStep::Seal(*request)
            },
            SealPlan::DeleteEmpty { request, .. } => SealStep::Delete(*request),
        }
    }

    /// Takes what happened, and says what is done next.
    pub fn step(&mut self, event: SealEvent) -> (step: SealStep)
        ensures
            (*final(self), step) == old(self).stepped(event),
    {
        match event {
            SealEvent::Started => self.next(),
            SealEvent::ParityEnded(Ok(_)) => {
                let all: usize = match &self.plan {
                    SealPlan::Seal { parity, .. } => parity.len(),
                    SealPlan::DeleteEmpty { .. } => 0,
                };
                if self.awaited < all {
                    self.awaited = self.awaited + 1;
                }
                self.next()
            },
            SealEvent::ParityEnded(Err(e)) => SealStep::Failed(e),
            SealEvent::Answered(outcome) => match &self.plan {
                SealPlan::Seal { location, .. } => match outcome {
                    Ok(_) => SealStep::Done(*location),
                    Err(e) => SealStep::Failed(e),
                },
                SealPlan::DeleteEmpty { location, .. } => SealStep::Done(*location),
            },
        }
    }
}

/// A chunk is sealed once every parity of it is there and none failed: with
/// less of it the next one is waited for, and after a failure, which is the
/// first one, no request is sent.
pub proof fn lemma_sealed_with_all_parity(
    parity: Vec<u64>,
    request: SealChunkRequest,
    location: Location,
    outcomes: Seq<Result<(), IoError>>,
)
    requires
        outcomes.len() <= parity@.len(),
        parity@.len() <= usize::MAX,
    ensures
        ({
            let plan = SealPlan::Seal { parity, request, location };
            let step = Sealing::after_parity(plan, outcomes).1;
            match lists::first_index(outcomes, |o: Result<(), IoError>| o is Err) {
                Some(i) => step == SealStep::Failed(outcomes[i]->Err_0),
                None => step == (if outcomes.len() < parity@.len() {
                    SealStep::AwaitParity(parity@[outcomes.len() as int])
                } else {
                    SealStep::Seal(request)
                }),
            }
        }),
{
    lemma_sealing_after_parity(parity, request, location, outcomes);
}

proof fn lemma_sealing_after_parity(
    parity: Vec<u64>,
    request: SealChunkRequest,
    location: Location,
    outcomes: Seq<Result<(), IoError>>,
)
    requires
        outcomes.len() <= parity@.len(),
        parity@.len() <= usize::MAX,
    ensures
        ({
            let plan = SealPlan::Seal { parity, request, location };
            let (state, step) = Sealing::after_parity(plan, outcomes);
            &&& state.plan == plan
            &&& match lists::first_index(outcomes, |o: Result<(), IoError>| o is Err) {
                Some(i) => step == SealStep::Failed(outcomes[i]->Err_0),
                None => state.awaited == outcomes.len() && step == state.pending(),
            }
        }),
    decreases outcomes.len(),
{
    let failed = |o: Result<(), IoError>| o is Err;
    lists::lemma_first_index(outcomes, failed);
    if outcomes.len() > 0 {
        let earlier = outcomes.drop_last();
        lemma_sealing_after_parity(parity, request, location, earlier);
        lists::lemma_first_index(earlier, failed);
        lists::lemma_push_keeps_match(earlier, failed, outcomes.last());
        assert(earlier.push(outcomes.last()) =~= outcomes);
        if lists::first_index(earlier, failed) is Some {
            let i = lists::first_index(earlier, failed)->0;
            assert(earlier[i] == outcomes[i]);
        }
    }
}

/// What becomes of a chunk that is given up.
#[derive(Debug, Clone, PartialEq, Eq)]
pub struct AbortPlan {
    /// Whether a strip is open, and is given up before anything else.
    pub strip: bool,
    /// The parity that is waited for first, whatever comes of it: writes that
    /// were sent cannot be called back, and must not hit storage that was given
    /// to somebody else.
    pub parity: Vec<u64>,
    /// Where anything of the chunk was opened, it is deleted then.
    pub delete: Option<DeleteChunkRequest>,
}

/// What happened to a chunk that is being given up.
#[derive(Debug, PartialEq, Eq)]
pub enum AbortEvent {
    /// Nothing yet.
    Started,
    /// The open strip was given up, or could not be.
    StripAborted(Result<(), IoError>),
    /// The parity that was waited for ended.
    ParityEnded(Result<(), IoError>),
    /// The request to delete the chunk was answered.
    Answered(Result<(), IoError>),
}

/// What is done next with a chunk that is being given up.
#[derive(Debug, Clone, Copy, PartialEq, Eq)]
pub enum AbortStep {
    /// Give up the open strip.
    AbortStrip,
    /// Wait for this parity.
    AwaitParity(u64),
    Delete(DeleteChunkRequest),
    Done,
}

/// A chunk that is being given up: the plan, and how much of it was done.
#[derive(Debug, Clone, PartialEq, Eq)]
pub struct Aborting {
    pub plan: AbortPlan,
    pub strip_aborted: bool,
    pub awaited: usize,
    pub answered: bool,
}

impl Aborting {
    /// What is to be done: the open strip, then every parity in order, then
    /// the request.
    pub open spec fn pending(self) -> AbortStep {
        if self.plan.strip && !self.strip_aborted {
            AbortStep::AbortStrip
        } else if self.awaited < self.plan.parity@.len() {
            AbortStep::AwaitParity(self.plan.parity@[self.awaited as int])
        } else {
            match self.plan.delete {
                Some(request) => if self.answered {
                    AbortStep::Done
                } else {
                    AbortStep::Delete(request)
                },
                None => AbortStep::Done,
            }
        }
    }

    /// The state after an event. How what was done ended does not matter, and
    /// an event that belongs to nothing that is to be done changes nothing.
    pub open spec fn after(self, event: AbortEvent) -> Aborting {
        match (event, self.pending()) {
            (AbortEvent::StripAborted(_), AbortStep::AbortStrip) => Aborting {
                strip_aborted: true,
                ..self
            },
            (AbortEvent::ParityEnded(_), AbortStep::AwaitParity(_)) => Aborting {
                awaited: (self.awaited + 1) as usize,
                ..self
            },
            (AbortEvent::Answered(_), AbortStep::Delete(_)) => Aborting { answered: true, ..self },
            _ => self,
        }
    }

    /// The event that a step leads to, where it ends as `outcome` says.
    pub open spec fn event_of(step: AbortStep, outcome: Result<(), IoError>) -> AbortEvent {
        match step {
            AbortStep::AbortStrip => AbortEvent::StripAborted(outcome),
            AbortStep::AwaitParity(_) => AbortEvent::ParityEnded(outcome),
            AbortStep::Delete(_) => AbortEvent::Answered(outcome),
            AbortStep::Done => AbortEvent::Started,
        }
    }

    /// The state after the steps that ended as `outcomes` say, in order.
    pub open spec fn after_steps(plan: AbortPlan, outcomes: Seq<Result<(), IoError>>) -> Aborting
        decreases outcomes.len(),
    {
        if outcomes.len() == 0 {
            Aborting { plan, strip_aborted: false, awaited: 0, answered: false }
        } else {
            let before = Self::after_steps(plan, outcomes.drop_last());
            before.after(Self::event_of(before.pending(), outcomes.last()))
        }
    }

    /// All that is done, in order.
    pub open spec fn steps(plan: AbortPlan) -> Seq<AbortStep> {
        (if plan.strip {
            seq![AbortStep::AbortStrip]
        } else {
            seq![]
        }) + plan.parity@.map_values(|id: u64| AbortStep::AwaitParity(id)) + (match plan.delete {
            Some(request) => seq![AbortStep::Delete(request)],
            None => seq![],
        })
    }

    pub fn new(plan: AbortPlan) -> (a: Self)
        ensures
            a == (Aborting { plan, strip_aborted: false, awaited: 0, answered: false }),
    {
        Aborting { plan, strip_aborted: false, awaited: 0, answered: false }
    }

    fn next(&self) -> (step: AbortStep)
        ensures
            step == self.pending(),
            step is AwaitParity ==> self.awaited < usize::MAX,
    {
        if self.plan.strip && !self.strip_aborted {
            return AbortStep::AbortStrip;
        }
        if self.awaited < self.plan.parity.len() {
            return AbortStep::AwaitParity(self.plan.parity[self.awaited]);
        }
        match self.plan.delete {
            Some(request) => if self.answered {
                AbortStep::Done
            } else {
                AbortStep::Delete(request)
            },
            None => AbortStep::Done,
        }
    }

    /// Takes what happened, and says what is done next.
    pub fn step(&mut self, event: AbortEvent) -> (step: AbortStep)
        ensures
            *final(self) == old(self).after(event),
            step == final(self).pending(),
    {
        match (event, self.next()) {
            (AbortEvent::StripAborted(_), AbortStep::AbortStrip) => {
                self.strip_aborted = true;
            },
            (AbortEvent::ParityEnded(_), AbortStep::AwaitParity(_)) => {
                self.awaited = self.awaited + 1;
            },
            (AbortEvent::Answered(_), AbortStep::Delete(_)) => {
                self.answered = true;
            },
            _ => {},
        }
        self.next()
    }
}

/// How far the steps of a chunk that is given up have come.
proof fn lemma_abort_progress(plan: AbortPlan, outcomes: Seq<Result<(), IoError>>)
    requires
        plan.parity@.len() <= usize::MAX,
    ensures
        ({
            let a = Aborting::after_steps(plan, outcomes);
            let n = outcomes.len();
            let first: int = if plan.strip {
                1
            } else {
                0
            };
            let all = plan.parity@.len();
            &&& a.plan == plan
            &&& a.strip_aborted == (plan.strip && n > 0)
            &&& a.awaited == (if n <= first {
                0
            } else if n <= first + all {
                n - first
            } else {
                all as int
            })
            &&& a.answered == (plan.delete is Some && n > first + all)
        }),
    decreases outcomes.len(),
{
    if outcomes.len() > 0 {
        lemma_abort_progress(plan, outcomes.drop_last());
    }
}

/// A chunk that is given up is deleted only after the open strip was given up
/// and every parity ended. Each step is done once and in order, whatever came
/// of the ones before it, and a deletion that failed ends it like any other.
pub proof fn lemma_aborted_in_order(plan: AbortPlan, outcomes: Seq<Result<(), IoError>>)
    requires
        plan.parity@.len() <= usize::MAX,
    ensures
        ({
            let step = Aborting::after_steps(plan, outcomes).pending();
            let n = outcomes.len() as int;
            let before = (if plan.strip {
                1int
            } else {
                0
            }) + plan.parity@.len();
            &&& step == (if n < Aborting::steps(plan).len() {
                Aborting::steps(plan)[n]
            } else {
                AbortStep::Done
            })
            &&& n == 0 && plan.strip ==> step is AbortStrip
            &&& before - plan.parity@.len() <= n < before ==> step == AbortStep::AwaitParity(
                plan.parity@[n - (before - plan.parity@.len())],
            )
            &&& n == before ==> step == (match plan.delete {
                Some(request) => AbortStep::Delete(request),
                None => AbortStep::Done,
            })
            &&& step matches AbortStep::Delete(request) ==> n == before && plan.delete == Some(
                request,
            )
            &&& n > before ==> step is Done
        }),
{
    lemma_abort_progress(plan, outcomes);
}

/// The state of a chunk being written. Strip writers and outstanding parity
/// are known by their numbers.
#[derive(Debug, Clone, PartialEq, Eq)]
pub struct ChunkWriter {
    pub ec_scheme: EcScheme,
    pub config: ChunkClientConfig,
    pub chunk: Option<Chunk>,
    pub write_cursor: u32,
    pub bytes_in_chunk: u64,
    pub object_size: Option<u64>,
    pub strips_remaining: Option<usize>,
    /// The index of the open strip.
    pub current_strip: Option<u32>,
    /// The strips whose parity is outstanding, oldest first.
    pub parity_handles: Vec<u64>,
    /// Whether strips are still being appended ahead.
    pub prefetching: bool,
    pub preparation_stalls: u64,
}

impl ChunkWriter {
    /// The id of the open chunk.
    pub open spec fn chunk_id(self) -> Option<ChunkId> {
        match self.chunk {
            Some(c) => c.id,
            None => None,
        }
    }

    /// A writer with no chunk open.
    pub fn new(ec_scheme: EcScheme, config: ChunkClientConfig) -> (w: Self)
        ensures
            w.ec_scheme == ec_scheme,
            w.config == config,
            w.chunk is None,
            w.write_cursor == 0,
            w.bytes_in_chunk == 0,
            w.object_size is None,
            w.strips_remaining is None,
            w.current_strip is None,
            w.parity_handles@ == Seq::<u64>::empty(),
            !w.prefetching,
            w.preparation_stalls == 0,
    {
        ChunkWriter {
            ec_scheme,
            config,
            chunk: None,
            write_cursor: 0,
            bytes_in_chunk: 0,
            object_size: None,
            strips_remaining: None,
            current_strip: None,
            parity_handles: Vec::new(),
            prefetching: false,
            preparation_stalls: 0,
        }
    }

    /// Opens a chunk at its first strip. Refuses one without id or strips.
    pub fn open(&mut self, chunk: Chunk, object_size: Option<u64>) -> (r: Result<(), IoError>)
        requires
            chunk.id is Some && chunk.strips@.len() > 0 && object_size is Some ==> strips_usable(
                old(self).ec_scheme,
                old(self).config,
            ),
            chunk.id is Some && chunk.strips@.len() > 0 ==> (object_size matches Some(total)
                ==> client::ceil_div(
                total as int,
                strip_capacity(old(self).ec_scheme, old(self).config),
            ) <= usize::MAX),
        ensures
            match r {
                Ok(_) => {
                    &&& chunk.id is Some
                    &&& chunk.strips@.len() > 0
                    &&& final(self).chunk == Some(chunk)
                    &&& final(self).write_cursor == 0
                    &&& final(self).bytes_in_chunk == 0
                    &&& final(self).object_size == object_size
                    &&& match object_size {
                        Some(total) => final(self).strips_remaining matches Some(n) && n
                            == further_strips(
                            total as int,
                            strip_capacity(old(self).ec_scheme, old(self).config),
                        ),
                        None => final(self).strips_remaining is None,
                    }
                    &&& final(self).current_strip == Some(0u32)
                    &&& final(self).prefetching
                    &&& final(self).ec_scheme == old(self).ec_scheme
                    &&& final(self).config == old(self).config
                    &&& final(self).parity_handles == old(self).parity_handles
                    &&& final(self).preparation_stalls == old(self).preparation_stalls
                },
                Err(e) => *final(self) == *old(self) && if chunk.id is None {
                    e.is_allocation_failed("open: chunk missing id"@)
                } else {
                    chunk.strips@.len() == 0 && e.is_allocation_failed(
                        "open: chunk has no strips"@,
                    )
                },
            },
    {
        if chunk.id.is_none() {
            return Err(IoError::allocation_failed("open: chunk missing id"));
        }
        if chunk.strips.len() == 0 {
            return Err(IoError::allocation_failed("open: chunk has no strips"));
        }
        self.object_size = object_size;
        self.strips_remaining = compute_strips_remaining(
            object_size,
            &self.ec_scheme,
            &self.config,
        );
        self.chunk = Some(chunk);
        self.write_cursor = 0;
        self.bytes_in_chunk = 0;
        self.current_strip = Some(0);
        self.prefetching = true;
        Ok(())
    }

    /// The plan for appending strips ahead of this writer, if a chunk is
    /// open.
    pub fn start_strip_prefetch(&self) -> (r: Option<StripPrefetch>)
        requires
            self.chunk_id() is Some ==> strips_usable(self.ec_scheme, self.config)
                && self.write_cursor < u32::MAX,
        ensures
            match self.chunk_id() {
                None => r is None,
                Some(id) => r == Some(
                    StripPrefetch {
                        chunk_id: id,
                        ec_scheme: self.ec_scheme,
                        strips_remaining: self.strips_remaining,
                        next_strip_index: (self.write_cursor + 1) as u32,
                        strips_per_chunk: (self.config.max_chunk_size as int / strip_capacity(
                            self.ec_scheme,
                            self.config,
                        )) as u32,
                        prealloc_depth: self.config.prealloc_depth as u32,
                    },
                ),
            },
    {
        match self.current_chunk_id() {
            None => None,
            Some(id) => {
                let capacity: u64 = strip_capacity_of(&self.ec_scheme, &self.config);
                let per_chunk: u64 = self.config.max_chunk_size / capacity;
                Some(
                    StripPrefetch {
                        chunk_id: id,
                        ec_scheme: self.ec_scheme,
                        strips_remaining: self.strips_remaining,
                        next_strip_index: self.write_cursor + 1,
                        strips_per_chunk: #[verifier::truncate] (per_chunk as u32),
                        prealloc_depth: #[verifier::truncate] (self.config.prealloc_depth as u32),
                    },
                )
            },
        }
    }

    /// Opens the next strip on `chunk`, the chunk with one more strip.
    /// Refuses a chunk without id, or another one.
    pub fn continue_strip(&mut self, chunk: Chunk) -> (r: Result<(), IoError>)
        requires
            chunk.id is Some && old(self).chunk_id() == chunk.id ==> old(self).write_cursor
                < u32::MAX,
        ensures
            match r {
                Ok(_) => {
                    &&& chunk.id is Some
                    &&& old(self).chunk_id() == chunk.id
                    &&& *final(self) == (ChunkWriter {
                        chunk: Some(chunk),
                        write_cursor: (old(self).write_cursor + 1) as u32,
                        current_strip: Some((old(self).write_cursor + 1) as u32),
                        ..*old(self)
                    })
                },
                Err(e) => *final(self) == *old(self) && if chunk.id is None {
                    e.is_allocation_failed("continue_strip: chunk missing id"@)
                } else {
                    old(self).chunk_id() != chunk.id && e.is_internal(
                        "continue_strip with different chunk_id"@,
                    )
                },
            },
    {
        let new_id = match chunk.id {
            Some(id) => id,
            None => {
                return Err(IoError::allocation_failed("continue_strip: chunk missing id"));
            },
        };
        let same = match self.current_chunk_id() {
            Some(id) => id == new_id,
            None => false,
        };
        if !same {
            return Err(IoError::internal("continue_strip with different chunk_id"));
        }
        let next_index: u32 = self.write_cursor + 1;
        self.chunk = Some(chunk);
        self.write_cursor = next_index;
        self.current_strip = Some(next_index);
        Ok(())
    }

    /// What a push does first, the open strip having room or not. Refuses
    /// where no strip is open.
    pub fn push_step(&self, strip_ready: bool) -> (r: Result<PushStep, IoError>)
        ensures
            match r {
                Ok(s) => self.current_strip is Some && s == (if strip_ready {
                    PushStep::WriteBlock
                } else {
                    PushStep::FinishStrip
                }),
                Err(e) => self.current_strip is None && e.is_internal("push with no open strip"@),
            },
    {
        if self.current_strip.is_none() {
            return Err(IoError::internal("push with no open strip"));
        }
        if self.is_strip_full(strip_ready) {
            Ok(PushStep::FinishStrip)
        } else {
            Ok(PushStep::WriteBlock)
        }
    }

    /// What a push does once the full strip is finished.
    pub fn rotate_step(&self) -> (s: RotateStep)
        ensures
            s == (if self.bytes_in_chunk >= self.config.max_chunk_size {
                RotateStep::Pause
            } else {
                RotateStep::OpenNext
            }),
    {
        if self.is_full() {
            RotateStep::Pause
        } else {
            RotateStep::OpenNext
        }
    }

    /// The next strip is part of the chunk as it is known.
    pub open spec fn next_strip_known(self) -> bool {
        self.chunk matches Some(c) && self.write_cursor + 1 < c.strips@.len()
    }

    /// Opens the next strip where it is known; otherwise says how to get it,
    /// and counts the stall.
    pub fn open_next_strip(&mut self) -> (r: Result<NextStrip, IoError>)
        requires
            old(self).write_cursor < u32::MAX,
            old(self).chunk is Some && !old(self).next_strip_known() ==> old(
                self,
            ).preparation_stalls < u64::MAX,
        ensures
            match r {
                Ok(NextStrip::Opened(i)) => {
                    &&& old(self).next_strip_known()
                    &&& i == old(self).write_cursor + 1
                    &&& *final(self) == (ChunkWriter {
                        write_cursor: i,
                        current_strip: Some(i),
                        ..*old(self)
                    })
                },
                Ok(NextStrip::AwaitPrefetch) => {
                    &&& old(self).chunk is Some
                    &&& !old(self).next_strip_known()
                    &&& old(self).prefetching
                    &&& *final(self) == (ChunkWriter {
                        preparation_stalls: (old(self).preparation_stalls + 1) as u64,
                        ..*old(self)
                    })
                },
                Ok(NextStrip::AppendInline) => {
                    &&& old(self).chunk is Some
                    &&& !old(self).next_strip_known()
                    &&& !old(self).prefetching
                    &&& *final(self) == (ChunkWriter {
                        preparation_stalls: (old(self).preparation_stalls + 1) as u64,
                        ..*old(self)
                    })
                },
                Err(e) => old(self).chunk is None && *final(self) == *old(self) && e.is_internal(
                    "open_next_strip with no chunk"@,
                ),
            },
    {
        let next_index: u32 = self.write_cursor + 1;
        let known = match &self.chunk {
            Some(c) => (next_index as usize) < c.strips.len(),
            None => {
                return Err(IoError::internal("open_next_strip with no chunk"));
            },
        };
        if known {
            self.write_cursor = next_index;
            self.current_strip = Some(next_index);
            return Ok(NextStrip::Opened(next_index));
        }
        self.preparation_stalls = self.preparation_stalls + 1;
        if self.prefetching {
            Ok(NextStrip::AwaitPrefetch)
        } else {
            Ok(NextStrip::AppendInline)
        }
    }

    /// Takes over the chunk that the prefetching task delivered.
    pub fn prefetch_delivered(&mut self, chunk: Chunk)
        ensures
            *final(self) == (ChunkWriter { chunk: Some(chunk), ..*old(self) }),
    {
        self.chunk = Some(chunk);
    }

    /// The prefetching task is done: the next strip is appended now.
    pub fn prefetch_closed(&mut self) -> (s: NextStrip)
        ensures
            s == NextStrip::AppendInline,
            *final(self) == (ChunkWriter { prefetching: false, ..*old(self) }),
    {
        self.prefetching = false;
        NextStrip::AppendInline
    }

    /// How many of `results`, which the prefetching task has delivered, are
    /// chunks before the first error.
    pub open spec fn delivered(results: Seq<Result<Chunk, IoError>>) -> nat
        decreases results.len(),
    {
        if results.len() == 0 || results[0] is Err {
            0
        } else {
            1 + Self::delivered(results.drop_first())
        }
    }

    /// Takes over the last chunk delivered before the first error.
    pub fn drain_prefetch(&mut self, results: Vec<Result<Chunk, IoError>>)
        ensures
            ({
                let n = Self::delivered(results@) as int;
                *final(self) == (if n > 0 {
                    ChunkWriter { chunk: Some(results@[n - 1]->Ok_0), ..*old(self) }
                } else {
                    *old(self)
                })
            }),
    {
        let ghost all = results@;
        let ghost mut n: int = 0;
        let ghost start = *self;
        assert(all.skip(0) =~= all);
        proof {
            Self::lemma_delivered_bound(all);
        }
        for r in it: results
            invariant
                it.seq() == all,
                n == it.index(),
                0 <= n <= Self::delivered(all) <= all.len(),
                Self::delivered(all) == n + Self::delivered(all.skip(n)),
                *self == (if n > 0 {
                    ChunkWriter { chunk: Some(all[n - 1]->Ok_0), ..start }
                } else {
                    start
                }),
                start == *old(self),
                all == results@,
        {
            proof {
                assert(all.skip(n)[0] == all[n]);
                assert(all.skip(n).drop_first() =~= all.skip(n + 1));
            }
            match r {
                Ok(chunk) => {
                    self.chunk = Some(chunk);
                    proof {
                        n = n + 1;
                    }
                },
                Err(_) => {
                    return ;
                },
            }
        }
        assert(all.skip(n) =~= Seq::<Result<Chunk, IoError>>::empty());
    }

    proof fn lemma_delivered_bound(results: Seq<Result<Chunk, IoError>>)
        ensures
            Self::delivered(results) <= results.len(),
        decreases results.len(),
    {
        if results.len() > 0 && results[0] is Ok {
            Self::lemma_delivered_bound(results.drop_first());
        }
    }

    /// The oldest outstanding parity that has to be waited for before another
    /// strip is finished, if there is one.
    pub fn next_parity_to_await(&mut self) -> (r: Option<u64>)
        ensures
            ({
                let depth = if old(self).config.parity_depth == 0 {
                    1
                } else {
                    old(self).config.parity_depth as int
                };
                let p = old(self).parity_handles@;
                if p.len() >= depth {
                    r == Some(p[0]) && final(self).parity_handles@ == p.remove(0)
                } else {
                    r is None && final(self).parity_handles@ == p
                }
            }),
            final(self).same_but_parity(*old(self)),
    {
        let depth: usize = if self.config.parity_depth == 0 {
            1
        } else {
            self.config.parity_depth
        };
        if self.parity_handles.len() >= depth {
            let h: u64 = self.parity_handles.remove(0);
            Some(h)
        } else {
            None
        }
    }

    /// The two states differ in the outstanding parity alone.
    pub open spec fn same_but_parity(self, other: Self) -> bool {
        &&& self.ec_scheme == other.ec_scheme
        &&& self.config == other.config
        &&& self.chunk == other.chunk
        &&& self.write_cursor == other.write_cursor
        &&& self.bytes_in_chunk == other.bytes_in_chunk
        &&& self.object_size == other.object_size
        &&& self.strips_remaining == other.strips_remaining
        &&& self.current_strip == other.current_strip
        &&& self.prefetching == other.prefetching
        &&& self.preparation_stalls == other.preparation_stalls
    }

    /// Gives up the open strip, to be finished.
    pub fn take_strip(&mut self) -> (r: Result<u32, IoError>)
        ensures
            match r {
                Ok(i) => old(self).current_strip == Some(i) && *final(self) == (ChunkWriter {
                    current_strip: None,
                    ..*old(self)
                }),
                Err(e) => old(self).current_strip is None && *final(self) == *old(self)
                    && e.is_internal("finish_strip with no open strip"@),
            },
    {
        match self.current_strip {
            Some(i) => {
                self.current_strip = None;
                Ok(i)
            },
            None => Err(IoError::internal("finish_strip with no open strip")),
        }
    }

    /// Takes note of a finished strip: its bytes, and its outstanding parity.
    pub fn finish_strip(&mut self, bytes_written: u64, parity: Vec<u64>)
        requires
            old(self).bytes_in_chunk + bytes_written <= u64::MAX,
        ensures
            final(self).bytes_in_chunk == old(self).bytes_in_chunk + bytes_written,
            final(self).parity_handles@ == old(self).parity_handles@ + parity@,
            final(self).same_but_parity(
                (ChunkWriter {
                    bytes_in_chunk: (old(self).bytes_in_chunk + bytes_written) as u64,
                    ..*old(self)
                }),
            ),
    {
        let mut parity = parity;
        self.bytes_in_chunk = self.bytes_in_chunk + bytes_written;
        self.parity_handles.append(&mut parity);
    }

    /// Whether the open strip has no room, or none is open.
    pub fn is_strip_full(&self, strip_ready: bool) -> (r: bool)
        ensures
            r == (self.current_strip is None || !strip_ready),
    {
        self.current_strip.is_none() || !strip_ready
    }

    /// Whether the chunk has reached its maximal size.
    pub fn is_full(&self) -> (r: bool)
        ensures
            r == (self.bytes_in_chunk >= self.config.max_chunk_size),
    {
        self.bytes_in_chunk >= self.config.max_chunk_size
    }

    /// The request to append the next strip to the open chunk.
    pub fn append_strip(&self) -> (r: Result<AppendChunkRequest, IoError>)
        ensures
            match self.chunk_id() {
                Some(id) => r == Ok::<AppendChunkRequest, IoError>(append_one(id, self.ec_scheme))
                    && r->Ok_0.chunk_id == Some(id) && r->Ok_0.strip_count == 1,
                None => r matches Err(e) && e.is_internal("append_strip with no open chunk"@),
            },
    {
        match self.current_chunk_id() {
            Some(id) => Ok(append_request(id, self.ec_scheme)),
            None => Err(IoError::internal("append_strip with no open chunk")),
        }
    }

    /// Ends the prefetching of strips.
    pub fn stop_prefetch(&mut self)
        ensures
            *final(self) == (ChunkWriter { prefetching: false, ..*old(self) }),
    {
        self.prefetching = false;
    }

    /// Whether sealing finishes the open strip first: where there is one, and
    /// it has data.
    pub fn seal_finishes_strip(&self, strip_has_data: bool) -> (r: bool)
        ensures
            r == (self.current_strip is Some && strip_has_data),
    {
        self.current_strip.is_some() && strip_has_data
    }

    /// The location of `length` bytes at the start of a chunk.
    pub open spec fn location(chunk_id: ChunkId, length: u64) -> Location {
        Location {
            chunk_id: Some(chunk_id),
            offset: 0,
            length,
            logical_offset: 0,
            logical_length: length,
        }
    }

    fn take_parity(&mut self) -> (all: Vec<u64>)
        ensures
            all@ == old(self).parity_handles@,
            final(self).parity_handles@ == Seq::<u64>::empty(),
            final(self).same_but_parity(*old(self)),
    {
        let mut all: Vec<u64> = Vec::new();
        std::mem::swap(&mut all, &mut self.parity_handles);
        all
    }

    /// What becomes of the chunk: it is sealed at its length in units if it
    /// has data, once all its parity is there, and deleted if it has none.
    pub fn seal(&mut self) -> (r: Result<SealPlan, IoError>)
        requires
            old(self).chunk_id() is Some && old(self).bytes_in_chunk > 0 ==> unit_bytes(
                old(self).config,
            ) > 0,
        ensures
            final(self).same_but_parity(*old(self)),
            match old(self).chunk_id() {
                None => {
                    &&& r matches Err(e) && e.is_internal("seal with no open chunk"@)
                    &&& final(self).parity_handles@ == old(self).parity_handles@
                },
                Some(id) => if old(self).bytes_in_chunk > 0 {
                    &&& r matches Ok(SealPlan::Seal { parity, request, location }) && {
                        &&& parity@ == old(self).parity_handles@
                        &&& request == (SealChunkRequest {
                            chunk_id: Some(id),
                            seal_length: (old(self).bytes_in_chunk as int / unit_bytes(
                                old(self).config,
                            )) as u32,
                        })
                        &&& location == Self::location(id, old(self).bytes_in_chunk)
                    }
                    &&& final(self).parity_handles@ == Seq::<u64>::empty()
                } else {
                    &&& r == Ok::<SealPlan, IoError>(
                        SealPlan::DeleteEmpty {
                            request: DeleteChunkRequest { chunk_id: Some(id) },
                            location: Self::location(id, 0),
                        },
                    )
                    &&& final(self).parity_handles@ == old(self).parity_handles@
                },
            },
    {
        let id = match self.current_chunk_id() {
            Some(id) => id,
            None => {
                return Err(IoError::internal("seal with no open chunk"));
            },
        };
        let length: u64 = self.bytes_in_chunk;
        let location = Location {
            chunk_id: Some(id),
            offset: 0,
            length,
            logical_offset: 0,
            logical_length: length,
        };
        if length > 0 {
            let unit: u64 = unit_bytes_of(&self.config);
            let units: u64 = length / unit;
            let parity = self.take_parity();
            Ok(
                SealPlan::Seal {
                    parity,
                    request: SealChunkRequest {
                        chunk_id: Some(id),
                        seal_length: #[verifier::truncate] (units as u32),
                    },
                    location,
                },
            )
        } else {
            Ok(
                SealPlan::DeleteEmpty {
                    request: DeleteChunkRequest { chunk_id: Some(id) },
                    location,
                },
            )
        }
    }

    /// Gives up the chunk: ends prefetching, drops the open strip, and says
    /// whether there was one, which parity to wait for and whether to delete
    /// the chunk.
    pub fn abort(&mut self) -> (plan: AbortPlan)
        ensures
            plan.strip == (old(self).current_strip is Some),
            plan.parity@ == old(self).parity_handles@,
            plan.delete == (match old(self).chunk_id() {
                Some(id) => if old(self).bytes_in_chunk > 0 || old(self).current_strip is Some
                    || old(self).write_cursor > 0 {
                    Some(DeleteChunkRequest { chunk_id: Some(id) })
                } else {
                    None
                },
                None => None,
            }),
            final(self).parity_handles@ == Seq::<u64>::empty(),
            final(self).same_but_parity(
                (ChunkWriter { prefetching: false, current_strip: None, ..*old(self) }),
            ),
    {
        let had_strip = self.current_strip.is_some();
        self.prefetching = false;
        self.current_strip = None;
        let parity = self.take_parity();
        let delete = match self.current_chunk_id() {
            Some(id) => if self.bytes_in_chunk > 0 || had_strip || self.write_cursor > 0 {
                Some(DeleteChunkRequest { chunk_id: Some(id) })
            } else {
                None
            },
            None => None,
        };
        AbortPlan { strip: had_strip, parity, delete }
    }

    /// Whether the open strip has room.
    pub fn ready(&self, strip_ready: bool) -> (r: bool)
        ensures
            r == (self.current_strip is Some && strip_ready),
    {
        self.current_strip.is_some() && strip_ready
    }

    pub fn bytes_in_chunk(&self) -> (n: u64)
        ensures
            n == self.bytes_in_chunk,
    {
        self.bytes_in_chunk
    }

    /// The id of the open chunk.
    pub fn current_chunk_id(&self) -> (r: Option<ChunkId>)
        ensures
            r == self.chunk_id(),
    {
        match &self.chunk {
            Some(c) => c.id,
            None => None,
        }
    }

    /// How many strips of the chunk have been opened.
    pub fn strips_in_chunk(&self) -> (n: u32)
        requires
            self.chunk is Some ==> self.write_cursor < u32::MAX,
        ensures
            n == (if self.chunk is Some {
                self.write_cursor + 1
            } else {
                0
            }),
    {
        if self.chunk.is_some() {
            self.write_cursor + 1
        } else {
            0
        }
    }
}

/// A strip is appended to the chunk that is named, to that one only, and is one
/// strip of as many data and code blocks as the scheme has.
pub proof fn lemma_append_names_its_chunk(c: ChunkId, other: ChunkId, scheme: EcScheme)
    ensures
        append_one(c, scheme).chunk_id == Some(c),
        c != other ==> append_one(c, scheme) != append_one(other, scheme),
        append_one(c, scheme).strip_count == 1,
        append_one(c, scheme).strip_type == Some(StripType::Ec),
        append_one(c, scheme).copy_count == 0,
        scheme.data_num <= u32::MAX ==> append_one(c, scheme).data_num == scheme.data_num
            && append_one(c, scheme).strip_size == scheme.data_num,
        scheme.code_num <= u32::MAX ==> append_one(c, scheme).code_num == scheme.code_num,
{
}

/// The open chunk is the one that was opened, until another one is.
pub proof fn lemma_open_chunk_is_named(w: ChunkWriter, c: Chunk)
    ensures
        (ChunkWriter { chunk: Some(c), ..w }).chunk_id() == c.id,
        (ChunkWriter { chunk: None, ..w }).chunk_id() is None,
{
}

/// A unit is the buffer size, cut down to whole kilobytes; a strip holds one
/// unit for each of its data blocks.
pub proof fn lemma_unit_fits_buffer(scheme: EcScheme, config: ChunkClientConfig)
    requires
        config.read_buffer_size / 1024 <= u32::MAX,
    ensures
        unit_bytes(config) <= config.read_buffer_size < unit_bytes(config) + 1024,
        unit_bytes(config) % 1024 == 0,
        unit_kb(config) * 1024 == unit_bytes(config),
        strip_capacity(scheme, config) == scheme.data_num * (config.read_buffer_size
            - config.read_buffer_size % 1024),
        strips_usable(scheme, config) <==> scheme.data_num > 0 && config.read_buffer_size >= 1024
            && strip_capacity(scheme, config) <= u64::MAX,
{
    let d = scheme.data_num as int;
    let u = unit_bytes(config);
    assert(u == config.read_buffer_size - config.read_buffer_size % 1024);
    assert(d > 0 && u > 0 <==> d * u > 0) by (nonlinear_arith)
        requires
            d >= 0,
            u >= 0,
    ;
}

/// An empty object needs no strip beyond the first.
pub proof fn lemma_empty_object_needs_no_more(capacity: int)
    requires
        capacity > 0,
    ensures
        further_strips(0, capacity) == 0,
{
}

/// A sealed chunk is found from its start, over the bytes that were written.
pub proof fn lemma_location_covers_chunk(id: ChunkId, length: u64)
    ensures
        ({
            let l = ChunkWriter::location(id, length);
            &&& l.chunk_id == Some(id)
            &&& l.offset == 0 && l.length == length
            &&& l.logical_offset == 0 && l.logical_length == length
        }),
{
}

/// Once the request to seal was answered, the location is reported just where
/// the chunk was sealed; the location of an empty chunk is reported in any
/// case.
pub proof fn lemma_seal_reports_location(
    s: Sealing,
    outcome: Result<(), IoError>,
    error: IoError,
)
    ensures
        s.plan matches SealPlan::Seal { location, .. } ==> s.stepped(
            SealEvent::Answered(Ok(())),
        ).1 == SealStep::Done(location) && s.stepped(SealEvent::Answered(Err(error))).1
            == SealStep::Failed(error),
        s.plan matches SealPlan::DeleteEmpty { request, location } ==> s.stepped(
            SealEvent::Answered(outcome),
        ).1 == SealStep::Done(location) && s.stepped(SealEvent::Started).1 == SealStep::Delete(
            request,
        ),
        s.stepped(SealEvent::ParityEnded(Err(error))).1 == SealStep::Failed(error),
{
}

/// Strips are appended as long as the chunk has room, the object needs more and
/// not too many are ahead.
pub proof fn lemma_prefetch_goes_on(p: StripPrefetch, written: u32)
    requires
        p.next_strip_index < p.strips_per_chunk,
        p.strips_remaining != Some(0usize),
        p.next_strip_index < written + p.prealloc_depth,
        written < p.next_strip_index,
    ensures
        !p.done(),
        p.lag(written) < p.prealloc_depth,
{
}

/// Two writers that differ in the outstanding parity alone, and do not differ
/// in that, are the same.
pub proof fn lemma_same_but_parity(a: ChunkWriter, b: ChunkWriter)
    ensures
        a.same_but_parity(b) && a.parity_handles == b.parity_handles <==> a == b,
{
}

/// The chunks that were delivered are those before the first failure.
pub proof fn lemma_delivered_before_failure(results: Seq<Result<Chunk, IoError>>)
    ensures
        ({
            let n = ChunkWriter::delivered(results) as int;
            &&& n <= results.len()
            &&& forall|i: int| 0 <= i < n ==> (#[trigger] results[i]) is Ok
            &&& n < results.len() ==> results[n] is Err
        }),
    decreases results.len(),
{
    if results.len() > 0 && results[0] is Ok {
        let rest = results.drop_first();
        lemma_delivered_before_failure(rest);
        let n = ChunkWriter::delivered(results) as int;
        assert forall|i: int| 0 <= i < n implies (#[trigger] results[i]) is Ok by {
            if i > 0 {
                assert(rest[i - 1] == results[i]);
            }
        }
        if n < results.len() {
            assert(rest[n - 1] == results[n]);
        }
    }
}

/// The next strip is known just where the chunk lists a strip behind the one
/// that is written.
pub proof fn lemma_next_strip_known(w: ChunkWriter)
    ensures
        w.chunk is None ==> !w.next_strip_known(),
        w.chunk matches Some(c) ==> (w.next_strip_known() <==> c.strips@.len() >= w.write_cursor + 2),
{
}

/// A chunk is sealed or deleted once its request was answered: sealing fails
/// with the answer's error, deleting an empty chunk does not. Parity that failed
/// ends the sealing with its error.
pub proof fn lemma_sealing_answers(s: Sealing, e: IoError)
    ensures
        s.plan matches SealPlan::Seal { location, .. } ==> {
            &&& s.stepped(SealEvent::Answered(Ok(()))).1 == SealStep::Done(location)
            &&& s.stepped(SealEvent::Answered(Err(e))).1 == SealStep::Failed(e)
        },
        s.plan matches SealPlan::DeleteEmpty { request, location } ==> {
            &&& s.stepped(SealEvent::Started).1 == SealStep::Delete(request)
            &&& s.stepped(SealEvent::Answered(Ok(()))).1 == SealStep::Done(location)
            &&& s.stepped(SealEvent::Answered(Err(e))).1 == SealStep::Done(location)
        },
        s.stepped(SealEvent::ParityEnded(Err(e))).1 == SealStep::Failed(e),
        s.stepped(SealEvent::ParityEnded(Err(e))).0.plan == s.plan,
{
}

/// The lag counts the strips that are allocated beyond the one being written,
/// and is 0 where none are.
pub proof fn lemma_lag(p: StripPrefetch, written: u32)
    ensures
        p.next_strip_index >= written ==> written + p.lag(written) == p.next_strip_index,
        p.next_strip_index <= written ==> p.lag(written) == 0,
        p.done() <==> p.strips_remaining == Some(0usize) || p.next_strip_index
            >= p.strips_per_chunk,
{
}

} // verus!

//! When a call to the chunk database is tried again, and where it is sent.

use std::collections::HashMap;

use vstd::prelude::*;

use crate::chunk::error::prefixed;
use crate::chunkdb::error::ChunkdbClientError;
use crate::kv::registry::InstanceValue;
#[allow(unused_imports)]
use crate::rpc::endpoint;

verus! {

broadcast use vstd::std_specs::hash::group_hash_axioms;

/// The longest wait that can be written down, in nanoseconds.
pub const MAX_BACKOFF_NS: u128 = 18_446_744_073_709_551_615_999_999_999;

/// How often a call is tried again, and how long to wait before the first
/// time, in nanoseconds.
#[derive(Debug, Clone, Copy, PartialEq, Eq, Structural)]
pub struct RetryConfig {
    pub max_retries: u32,
    pub initial_backoff: u128,
}

impl Default for RetryConfig {
    fn default() -> (c: Self)
        ensures
            c.max_retries == 3,
            c.initial_backoff == 50_000_000,
    {
        RetryConfig { max_retries: 3, initial_backoff: 50_000_000 }
    }
}

/// Twice the wait `b`, or the longest one.
pub open spec fn doubled(b: u128) -> u128 {
    if 2 * b > MAX_BACKOFF_NS {
        MAX_BACKOFF_NS
    } else {
        (2 * b) as u128
    }
}

/// The wait before the retry that follows `n` earlier ones.
pub open spec fn backoff_after(initial: u128, n: nat) -> u128
    decreases n,
{
    if n == 0 {
        initial
    } else {
        doubled(backoff_after(initial, (n - 1) as nat))
    }
}

/// How far a call has got.
#[derive(Debug, Clone, Copy, PartialEq, Eq, Structural)]
pub struct RetryState {
    pub attempts: u32,
    pub backoff: u128,
}

/// What to do after an error.
#[derive(Debug, Clone, Copy, PartialEq, Eq, Structural)]
pub enum RetryStep {
    /// Report the error.
    GiveUp,
    /// Wait this many nanoseconds, refresh the endpoints and the binding, and
    /// try again.
    Retry { sleep_ns: u128, rebind: Rebind },
}

/// What becomes of the range binding before a retry.
#[derive(Debug, Clone, Copy, PartialEq, Eq, Structural)]
pub enum Rebind {
    Keep,
    Refresh,
    RefreshAndRoute,
}

/// Where a call is sent.
#[derive(Debug, Clone, Copy, PartialEq, Eq, Structural)]
pub enum EndpointSource {
    /// To the instance that owns the chunk's range.
    Routed,
    /// To any instance.
    First,
}

/// Where a call is sent: to the owner of the chunk's range where ranges are
/// bound and the call is about a chunk.
pub fn endpoint_source(has_binding: bool, has_chunk_id: bool) -> (s: EndpointSource)
    ensures
        s == (if has_binding && has_chunk_id {
            EndpointSource::Routed
        } else {
            EndpointSource::First
        }),
{
    if has_binding && has_chunk_id {
        EndpointSource::Routed
    } else {
        EndpointSource::First
    }
}

/// The endpoint to use when any instance will do: the first of those known,
/// or an error where none is, even after a refresh.
pub fn first_endpoint(known: &Vec<String>, refreshed: bool) -> (r: Result<
    Option<String>,
    ChunkdbClientError,
>)
    ensures
        match r {
            Ok(Some(e)) => known@.len() > 0 && e == known@[0],
            Ok(None) => known@.len() == 0 && !refreshed,
            Err(e) => known@.len() == 0 && refreshed && (e matches ChunkdbClientError::Unreachable(
                t,
            ) && t@ == "no chunkdb instances registered"@),
        },
{
    if known.len() > 0 {
        Ok(Some(known[0].clone()))
    } else if refreshed {
        Err(ChunkdbClientError::Unreachable("no chunkdb instances registered".to_owned()))
    } else {
        Ok(None)
    }
}

/// The endpoints of the instances, by their ids. Of several records of one
/// instance the last counts.
pub open spec fn endpoints_of(instances: Seq<(u64, InstanceValue)>) -> Map<u64, Seq<char>>
    decreases instances.len(),
{
    if instances.len() == 0 {
        Map::empty()
    } else {
        let x = instances.last();
        endpoints_of(instances.drop_last()).insert(x.0, x.1.rpc_endpoint@)
    }
}

/// The endpoints that are known after the registry was read, or why it could
/// not be.
pub fn refresh_endpoints(read: Result<Vec<(u64, InstanceValue)>, String>) -> (r: Result<
    HashMap<u64, String>,
    ChunkdbClientError,
>)
    ensures
        match read {
            Ok(v) => r matches Ok(m) && endpoint::endpoint_map(m@) == endpoints_of(v@),
            Err(t) => r matches Err(ChunkdbClientError::Unreachable(s)) && s@
                == "read_all_instances: "@ + t@,
        },
{
    match read {
        Ok(instances) => {
            let mut m: HashMap<u64, String> = HashMap::new();
            let mut i: usize = 0;
            assert(endpoint::endpoint_map(m@) =~= endpoints_of(instances@.take(0)));
            while i < instances.len()
                invariant
                    i <= instances@.len(),
                    endpoint::endpoint_map(m@) == endpoints_of(instances@.take(i as int)),
                decreases instances@.len() - i,
            {
                let ghost before = m@;
                let e = instances[i].1.rpc_endpoint.clone();
                m.insert(instances[i].0, e);
                proof {
                    let t = instances@.take(i + 1);
                    assert(t.drop_last() =~= instances@.take(i as int));
                    assert(endpoint::endpoint_map(m@) =~= endpoint::endpoint_map(before).insert(
                        t.last().0,
                        t.last().1.rpc_endpoint@,
                    ));
                }
                i = i + 1;
            }
            assert(instances@.take(i as int) =~= instances@);
            Ok(m)
        },
        Err(t) => Err(
            ChunkdbClientError::Unreachable(prefixed("read_all_instances: ", t.as_str())),
        ),
    }
}

/// Where the owner of a chunk's range is, or why that is not known. There is
/// no falling back on another instance.
pub fn routed_endpoint(routed: Result<String, String>) -> (r: Result<String, ChunkdbClientError>)
    ensures
        match routed {
            Ok(e) => r == Ok::<String, ChunkdbClientError>(e),
            Err(t) => r matches Err(ChunkdbClientError::Unreachable(s)) && s@
                == "range routing failed: "@ + t@,
        },
{
    match routed {
        Ok(e) => Ok(e),
        Err(t) => Err(
            ChunkdbClientError::Unreachable(prefixed("range routing failed: ", t.as_str())),
        ),
    }
}

impl RetryState {
    pub fn new(config: &RetryConfig) -> (s: Self)
        ensures
            s.attempts == 0,
            s.backoff == config.initial_backoff,
            s.reached_by(*config),
    {
        RetryState { attempts: 0, backoff: config.initial_backoff }
    }

    /// The state after some retries under `config`.
    pub open spec fn reached_by(self, config: RetryConfig) -> bool {
        self.attempts <= config.max_retries && self.backoff == backoff_after(
            config.initial_backoff,
            self.attempts as nat,
        )
    }

    fn count_retry(&mut self) -> (sleep_ns: u128)
        requires
            old(self).attempts < u32::MAX,
        ensures
            sleep_ns == old(self).backoff,
            final(self).attempts == old(self).attempts + 1,
            final(self).backoff == doubled(old(self).backoff),
    {
        let sleep_ns: u128 = self.backoff;
        self.attempts = self.attempts + 1;
        self.backoff = if sleep_ns > MAX_BACKOFF_NS / 2 {
            MAX_BACKOFF_NS
        } else {
            sleep_ns * 2
        };
        sleep_ns
    }

    /// After an error of a call that may be repeated: transient errors are
    /// retried, up to the configured number of times.
    pub fn after_error(
        &mut self,
        config: &RetryConfig,
        transient: bool,
        error: &ChunkdbClientError,
        has_binding: bool,
        has_chunk_id: bool,
    ) -> (step: RetryStep)
        ensures
            if !transient || old(self).attempts >= config.max_retries {
                step == RetryStep::GiveUp && *final(self) == *old(self)
            } else {
                &&& step == (RetryStep::Retry {
                    sleep_ns: old(self).backoff,
                    rebind: if !(error is NotMyRange) || !has_binding {
                        Rebind::Keep
                    } else if has_chunk_id {
                        Rebind::RefreshAndRoute
                    } else {
                        Rebind::Refresh
                    },
                })
                &&& final(self).attempts == old(self).attempts + 1
                &&& final(self).backoff == doubled(old(self).backoff)
            },
            old(self).reached_by(*config) ==> final(self).reached_by(*config),
    {
        if !transient || self.attempts >= config.max_retries {
            return RetryStep::GiveUp;
        }
        let sleep_ns: u128 = self.count_retry();
        let rebind = if !error.is_not_my_range() || !has_binding {
            Rebind::Keep
        } else if has_chunk_id {
            Rebind::RefreshAndRoute
        } else {
            Rebind::Refresh
        };
        RetryStep::Retry { sleep_ns, rebind }
    }

    /// After an error of an allocation, which must not be repeated once it
    /// may have taken effect: only a call that was refused for its range is
    /// retried.
    pub fn after_allocate_error(
        &mut self,
        config: &RetryConfig,
        error: &ChunkdbClientError,
        has_binding: bool,
        has_chunk_id: bool,
    ) -> (step: RetryStep)
        ensures
            if !(error is NotMyRange) || old(self).attempts >= config.max_retries {
                step == RetryStep::GiveUp && *final(self) == *old(self)
            } else {
                &&& step == (RetryStep::Retry {
                    sleep_ns: old(self).backoff,
                    rebind: if has_binding && has_chunk_id {
                        Rebind::RefreshAndRoute
                    } else {
                        Rebind::Keep
                    },
                })
                &&& final(self).attempts == old(self).attempts + 1
                &&& final(self).backoff == doubled(old(self).backoff)
            },
            old(self).reached_by(*config) ==> final(self).reached_by(*config),
    {
        if !error.is_not_my_range() || self.attempts >= config.max_retries {
            return RetryStep::GiveUp;
        }
        let sleep_ns: u128 = self.count_retry();
        let rebind = if has_binding && has_chunk_id {
            Rebind::RefreshAndRoute
        } else {
            Rebind::Keep
        };
        RetryStep::Retry { sleep_ns, rebind }
    }
}

/// A call is retried at most as often as configured: after that many retries
/// every error is reported.
pub proof fn lemma_retries_bounded(config: RetryConfig, s: RetryState)
    requires
        s.reached_by(config),
    ensures
        s.attempts <= config.max_retries,
        config.initial_backoff <= MAX_BACKOFF_NS ==> s.backoff <= MAX_BACKOFF_NS,
        config.initial_backoff <= MAX_BACKOFF_NS ==> s.backoff >= config.initial_backoff,
{
    lemma_backoff_range(config.initial_backoff, s.attempts as nat);
}

proof fn lemma_backoff_range(initial: u128, n: nat)
    ensures
        initial <= MAX_BACKOFF_NS ==> initial <= backoff_after(initial, n) <= MAX_BACKOFF_NS,
    decreases n,
{
    if n > 0 {
        lemma_backoff_range(initial, (n - 1) as nat);
    }
}

/// The first retry waits the configured time, and each further one twice as
/// long as the one before, as long as that can be counted in seconds of 64
/// bits.
pub proof fn lemma_backoff_doubles(initial: u128, n: nat)
    ensures
        backoff_after(initial, 0) == initial,
        ({
            let wait = backoff_after(initial, n) as int;
            let next = backoff_after(initial, n + 1) as int;
            let longest = 18_446_744_073_709_551_615 * 1_000_000_000 + 999_999_999;
            &&& 2 * wait <= longest ==> next == 2 * wait
            &&& 2 * wait > longest ==> next == longest
        }),
{
}

/// A call that was retried `n` times has waited for the doubled times, and was
/// allowed to.
pub proof fn lemma_retry_state(config: RetryConfig, s: RetryState)
    ensures
        s.reached_by(config) && s.attempts == 0 ==> s.backoff == config.initial_backoff,
        s.reached_by(config) ==> s.attempts <= config.max_retries,
        s.attempts <= config.max_retries && s.backoff == backoff_after(
            config.initial_backoff,
            s.attempts as nat,
        ) ==> s.reached_by(config),
{
}

/// An instance is reached at the endpoint of its last record.
pub proof fn lemma_last_record_counts(instances: Seq<(u64, InstanceValue)>, i: int)
    requires
        0 <= i < instances.len(),
        forall|j: int| i < j < instances.len() ==> (#[trigger] instances[j]).0 != instances[i].0,
    ensures
        endpoints_of(instances).contains_key(instances[i].0),
        endpoints_of(instances)[instances[i].0] == instances[i].1.rpc_endpoint@,
    decreases instances.len(),
{
    if i < instances.len() - 1 {
        let t = instances.drop_last();
        assert forall|j: int| i < j < t.len() implies (#[trigger] t[j]).0 != t[i].0 by {
            assert(instances[j] == t[j]);
        }
        lemma_last_record_counts(t, i);
        assert(t[i] == instances[i]);
        assert(instances[instances.len() - 1].0 != instances[i].0);
    }
}

/// Only an instance with a record is reached.
pub proof fn lemma_endpoints_recorded(instances: Seq<(u64, InstanceValue)>, id: u64)
    requires
        forall|j: int| 0 <= j < instances.len() ==> (#[trigger] instances[j]).0 != id,
    ensures
        !endpoints_of(instances).contains_key(id),
    decreases instances.len(),
{
    if instances.len() > 0 {
        let t = instances.drop_last();
        assert forall|j: int| 0 <= j < t.len() implies (#[trigger] t[j]).0 != id by {
            assert(instances[j] == t[j]);
        }
        lemma_endpoints_recorded(t, id);
        assert(instances[instances.len() - 1].0 != id);
    }
}

} // verus!

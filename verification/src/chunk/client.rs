//! What an application sees of a large write.

use std::sync::Arc;

use vstd::prelude::*;

use crate::chunk::config::{ChunkClientConfig, EcScheme};
use crate::protocol::Location;

verus! {

/// How to find the services.
#[derive(Debug, Clone, PartialEq, Eq)]
pub struct ChunkIoClientConfig {
    pub management_seeds: Vec<String>,
}

/// How a large object is coded and buffered.
#[derive(Debug, Clone)]
pub struct LargeWritePolicy {
    pub ec_scheme: EcScheme,
    pub client: Arc<ChunkClientConfig>,
}

/// The account of a large write; times in microseconds.
#[derive(Debug, Clone, PartialEq, Eq)]
pub struct LargeWriteResult {
    pub locations: Vec<Location>,
    pub logical_bytes: u64,
    pub physical_bytes: u64,
    pub chunks: usize,
    pub strips: u64,
    pub elapsed_us: u64,
    pub preparation_stalls: u64,
    pub preparation_stall_us: u64,
}

/// The bytes at the first `n` locations.
pub open spec fn length_sum(locations: Seq<Location>, n: int) -> int
    decreases n,
{
    if n <= 0 {
        0
    } else {
        length_sum(locations, n - 1) + locations[n - 1].length
    }
}

/// `a / b`, rounded up.
pub open spec fn ceil_div(a: int, b: int) -> int {
    if a % b == 0 {
        a / b
    } else {
        a / b + 1
    }
}

/// The strips that `logical` bytes fill.
pub open spec fn strip_count(logical: int, block: int, data_num: int) -> int {
    ceil_div(ceil_div(logical, block), data_num)
}

/// The bytes written for `logical` bytes of data: these, and the parity
/// blocks of every strip.
pub open spec fn physical_count(logical: int, block: int, scheme: EcScheme) -> int {
    logical + strip_count(logical, block, scheme.data_num as int) * scheme.code_num * block
}

/// `a / b`, rounded up.
pub fn div_ceil(a: u64, b: u64) -> (q: u64)
    requires
        b > 0,
    ensures
        q == ceil_div(a as int, b as int),
{
    let q: u64 = a / b;
    if a % b == 0 {
        q
    } else {
        assert(b > 1) by {
            if b == 1 {
                assert(a % 1 == 0);
            }
        }
        assert(a > 0) by (nonlinear_arith)
            requires
                a % b != 0,
                b > 0,
        ;
        assert(q < a) by (nonlinear_arith)
            requires
                q == a / b,
                b > 1,
                a > 0,
        ;
        q + 1
    }
}

proof fn lemma_length_sum_grows(locations: Seq<Location>, m: int, n: int)
    requires
        0 <= m <= n <= locations.len(),
    ensures
        0 <= length_sum(locations, m) <= length_sum(locations, n),
    decreases n,
{
    if m < n {
        lemma_length_sum_grows(locations, m, n - 1);
    } else if n > 0 {
        lemma_length_sum_grows(locations, m - 1, n - 1);
    }
}

/// The account of a write whose data went to `locations`.
pub fn account(
    locations: Vec<Location>,
    policy: &LargeWritePolicy,
    elapsed_us: u64,
) -> (r: LargeWriteResult)
    requires
        policy.client.read_buffer_size > 0,
        policy.ec_scheme.data_num > 0,
        length_sum(locations@, locations@.len() as int) <= u64::MAX,
        physical_count(
            length_sum(locations@, locations@.len() as int),
            policy.client.read_buffer_size as int,
            policy.ec_scheme,
        ) <= u64::MAX,
        strip_count(
            length_sum(locations@, locations@.len() as int),
            policy.client.read_buffer_size as int,
            policy.ec_scheme.data_num as int,
        ) * policy.ec_scheme.code_num <= u64::MAX,
    ensures
        r.locations == locations,
        r.chunks == locations@.len(),
        r.logical_bytes == length_sum(locations@, locations@.len() as int),
        r.strips == strip_count(
            r.logical_bytes as int,
            policy.client.read_buffer_size as int,
            policy.ec_scheme.data_num as int,
        ),
        r.physical_bytes == physical_count(
            r.logical_bytes as int,
            policy.client.read_buffer_size as int,
            policy.ec_scheme,
        ),
        r.elapsed_us == elapsed_us,
        r.preparation_stalls == 0,
        r.preparation_stall_us == 0,
{
    let mut logical_bytes: u64 = 0;
    let mut i: usize = 0;
    while i < locations.len()
        invariant
            i <= locations@.len(),
            logical_bytes == length_sum(locations@, i as int),
            length_sum(locations@, locations@.len() as int) <= u64::MAX,
        decreases locations@.len() - i,
    {
        proof {
            lemma_length_sum_grows(locations@, i + 1, locations@.len() as int);
        }
        logical_bytes = logical_bytes + locations[i].length;
        i = i + 1;
    }
    let block_bytes: u64 = policy.client.read_buffer_size as u64;
    let data_blocks: u64 = div_ceil(logical_bytes, block_bytes);
    let strips: u64 = div_ceil(data_blocks, policy.ec_scheme.data_num as u64);
    let code_num: u64 = policy.ec_scheme.code_num as u64;
    let parity_blocks: u64 = strips * code_num;
    assert(parity_blocks * block_bytes >= 0) by (nonlinear_arith)
        requires
            parity_blocks >= 0,
            block_bytes >= 0,
    ;
    let physical_bytes: u64 = logical_bytes + parity_blocks * block_bytes;
    let chunks: usize = locations.len();
    LargeWriteResult {
        locations,
        logical_bytes,
        physical_bytes,
        chunks,
        strips,
        elapsed_us,
        preparation_stalls: 0,
        preparation_stall_us: 0,
    }
}

/// A whole number of microseconds, at most what fits 64 bits.
pub fn saturated_micros(us: u128) -> (r: u64)
    ensures
        r == (if us > u64::MAX {
            u64::MAX
        } else {
            us as u64
        }),
{
    if us > u64::MAX as u128 {
        u64::MAX
    } else {
        us as u64
    }
}

/// What an object takes up is the sum of its pieces.
pub proof fn lemma_lengths_add_up(locations: Seq<Location>, more: Location)
    ensures
        length_sum(Seq::empty(), 0) == 0,
        length_sum(locations.push(more), locations.len() as int + 1) == length_sum(
            locations,
            locations.len() as int,
        ) + more.length,
{
    lemma_length_sum_prefix(locations, more, locations.len() as int);
}

proof fn lemma_length_sum_prefix(locations: Seq<Location>, more: Location, n: int)
    requires
        n <= locations.len(),
    ensures
        length_sum(locations.push(more), n) == length_sum(locations, n),
    decreases n,
{
    if n > 0 {
        lemma_length_sum_prefix(locations, more, n - 1);
    }
}

/// A quotient that is rounded up is the least number of parts that hold the
/// whole.
pub proof fn lemma_ceil_div_least(a: int, b: int)
    requires
        a >= 0,
        b > 0,
    ensures
        ceil_div(a, b) * b >= a,
        (ceil_div(a, b) - 1) * b < a,
        ceil_div(a, b) >= 0,
{
    let q = a / b;
    let r = a % b;
    assert(a == b * q + r && 0 <= r < b && q >= 0) by (nonlinear_arith)
        requires
            q == a / b,
            r == a % b,
            b > 0,
            a >= 0,
    ;
    assert(q * b == b * q) by (nonlinear_arith);
    assert((q + 1) * b == b * q + b) by (nonlinear_arith);
    assert((q - 1) * b == b * q - b) by (nonlinear_arith);
}

/// The strips are the least number whose blocks hold the data, and each of them
/// adds its code blocks to what is written.
pub proof fn lemma_parity_of_every_strip(logical: int, block: int, scheme: EcScheme)
    requires
        logical >= 0,
        block > 0,
        scheme.data_num > 0,
    ensures
        ({
            let n = strip_count(logical, block, scheme.data_num as int);
            &&& n >= 0
            &&& n * (scheme.data_num * block) >= logical
            &&& (n - 1) * (scheme.data_num * block) < logical
            &&& physical_count(logical, block, scheme) - logical == n * (scheme.code_num * block)
        }),
{
    let d = scheme.data_num as int;
    let c = scheme.code_num as int;
    let blocks = ceil_div(logical, block);
    let n = ceil_div(blocks, d);
    lemma_ceil_div_least(logical, block);
    lemma_ceil_div_least(blocks, d);
    assert(n * (d * block) >= logical) by (nonlinear_arith)
        requires
            blocks * block >= logical,
            n * d >= blocks,
            block > 0,
    ;
    assert((n - 1) * (d * block) < logical) by (nonlinear_arith)
        requires
            (blocks - 1) * block < logical,
            (n - 1) * d <= blocks - 1,
            block > 0,
    ;
    assert(n * c * block == n * (c * block)) by (nonlinear_arith);
}

} // verus!

//! The configuration that all writers of the chunk data path share.

use vstd::prelude::*;

use crate::chunk::error::IoError;

verus! {

/// How many data blocks and how many parity blocks a strip has.
#[derive(Debug, Clone, Copy, PartialEq, Eq, Structural)]
pub struct EcScheme {
    pub data_num: usize,
    pub code_num: usize,
}

impl EcScheme {
    /// The number of blocks of a strip.
    pub fn total_blocks(&self) -> (n: usize)
        requires
            self.data_num + self.code_num <= usize::MAX,
        ensures
            n == self.data_num + self.code_num,
    {
        self.data_num + self.code_num
    }
}

#[derive(Debug, Clone, Copy, PartialEq, Eq, Structural)]
pub struct ChunkClientConfig {
    /// The size of a block in bytes, in which sources are read.
    pub read_buffer_size: usize,
    /// How many bytes may be read ahead of the writer.
    pub max_cached_buffer: usize,
    /// The size in bytes at which a chunk is full.
    pub max_chunk_size: u64,
    /// How many strips are allocated ahead of the writer.
    pub prealloc_depth: usize,
    /// How many finished strips may have parity outstanding.
    pub parity_depth: usize,
    /// How many chunks are allocated ahead.
    pub chunk_prefetch_depth: usize,
    /// How many chunks are created at the start.
    pub prefetch_chunk_count: usize,
    /// The memory for a pool of writers in bytes; 0 is no limit.
    pub memory_budget: usize,
}

impl Default for ChunkClientConfig {
    fn default() -> (c: Self)
        ensures
            c == (ChunkClientConfig {
                read_buffer_size: 1_048_576,
                max_cached_buffer: 4_194_304,
                max_chunk_size: 1_073_741_824,
                prealloc_depth: 2,
                parity_depth: 2,
                chunk_prefetch_depth: 1,
                prefetch_chunk_count: 1,
                memory_budget: 0,
            }),
            c.valid(),
    {
        ChunkClientConfig {
            read_buffer_size: 1_048_576,
            max_cached_buffer: 4_194_304,
            max_chunk_size: 1_073_741_824,
            prealloc_depth: 2,
            parity_depth: 2,
            chunk_prefetch_depth: 1,
            prefetch_chunk_count: 1,
            memory_budget: 0,
        }
    }
}

impl ChunkClientConfig {
    /// The configuration can be worked with.
    pub open spec fn valid(self) -> bool {
        &&& self.read_buffer_size > 0
        &&& self.max_cached_buffer >= self.read_buffer_size
        &&& self.max_chunk_size > 0
        &&& self.prealloc_depth > 0
        &&& self.parity_depth > 0
        &&& self.prefetch_chunk_count > 0
    }

    /// What is wrong with a configuration that is not valid: the first fault
    /// in this order.
    pub open spec fn fault(self) -> Seq<char> {
        if self.read_buffer_size == 0 {
            "read_buffer_size must be > 0"@
        } else if self.max_cached_buffer < self.read_buffer_size {
            "max_cached_buffer must be >= read_buffer_size"@
        } else if self.max_chunk_size == 0 {
            "max_chunk_size must be > 0"@
        } else if self.prealloc_depth == 0 {
            "prealloc_depth must be > 0"@
        } else if self.parity_depth == 0 {
            "parity_depth must be > 0"@
        } else {
            "prefetch_chunk_count must be > 0"@
        }
    }

    /// Refuses a configuration that is not valid.
    pub fn validate(&self) -> (r: Result<(), IoError>)
        ensures
            match r {
                Ok(_) => self.valid(),
                Err(e) => !self.valid() && e.is_internal(self.fault()),
            },
    {
        if self.read_buffer_size == 0 {
            return Err(IoError::internal("read_buffer_size must be > 0"));
        }
        if self.max_cached_buffer < self.read_buffer_size {
            return Err(IoError::internal("max_cached_buffer must be >= read_buffer_size"));
        }
        if self.max_chunk_size == 0 {
            return Err(IoError::internal("max_chunk_size must be > 0"));
        }
        if self.prealloc_depth == 0 {
            return Err(IoError::internal("prealloc_depth must be > 0"));
        }
        if self.parity_depth == 0 {
            return Err(IoError::internal("parity_depth must be > 0"));
        }
        if self.prefetch_chunk_count == 0 {
            return Err(IoError::internal("prefetch_chunk_count must be > 0"));
        }
        Ok(())
    }

    /// The memory that one writer needs: the read-ahead, one more block, and
    /// the blocks of every strip with parity outstanding.
    pub open spec fn writer_memory(self, ec_scheme: EcScheme) -> int {
        self.max_cached_buffer + self.read_buffer_size + self.parity_depth * (ec_scheme.data_num
            + ec_scheme.code_num) * self.read_buffer_size
    }

    /// The memory that one writer needs, in bytes.
    pub fn per_writer_memory(&self, ec_scheme: &EcScheme) -> (n: usize)
        requires
            ec_scheme.data_num + ec_scheme.code_num <= usize::MAX,
            self.parity_depth * (ec_scheme.data_num + ec_scheme.code_num) <= usize::MAX,
            self.writer_memory(*ec_scheme) <= usize::MAX,
        ensures
            n == self.writer_memory(*ec_scheme),
    {
        let block: usize = self.read_buffer_size;
        let total: usize = ec_scheme.total_blocks();
        let pending: usize = self.parity_depth * total;
        assert(pending * block >= 0) by (nonlinear_arith)
            requires
                pending >= 0,
                block >= 0,
        ;
        self.max_cached_buffer + block + pending * block
    }
}

/// A configuration is refused for just one field that is out of range, the
/// first one, and accepted if none is.
pub proof fn lemma_fault_names_field(c: ChunkClientConfig)
    ensures
        c.valid() <==> c.read_buffer_size > 0 && c.max_cached_buffer >= c.read_buffer_size
            && c.max_chunk_size > 0 && c.prealloc_depth > 0 && c.parity_depth > 0
            && c.prefetch_chunk_count > 0,
        c.read_buffer_size == 0 ==> c.fault() == "read_buffer_size must be > 0"@,
        c.read_buffer_size > c.max_cached_buffer ==> c.fault()
            == "max_cached_buffer must be >= read_buffer_size"@,
        c.read_buffer_size > 0 && c.max_cached_buffer >= c.read_buffer_size ==> {
            &&& c.max_chunk_size == 0 ==> c.fault() == "max_chunk_size must be > 0"@
            &&& c.max_chunk_size > 0 && c.prealloc_depth == 0 ==> c.fault()
                == "prealloc_depth must be > 0"@
            &&& c.max_chunk_size > 0 && c.prealloc_depth > 0 && c.parity_depth == 0 ==> c.fault()
                == "parity_depth must be > 0"@
            &&& c.max_chunk_size > 0 && c.prealloc_depth > 0 && c.parity_depth > 0
                && c.prefetch_chunk_count == 0 ==> c.fault() == "prefetch_chunk_count must be > 0"@
        },
{
}

/// A writer needs the read-ahead and one block, and for each strip with parity
/// outstanding a block more for every data and code block.
pub proof fn lemma_writer_memory_grows(c: ChunkClientConfig, s: EcScheme)
    requires
        c.parity_depth < usize::MAX,
    ensures
        (ChunkClientConfig { parity_depth: 0, ..c }).writer_memory(s) == c.max_cached_buffer
            + c.read_buffer_size,
        (ChunkClientConfig { parity_depth: (c.parity_depth + 1) as usize, ..c }).writer_memory(s)
            == c.writer_memory(s) + (s.data_num + s.code_num) * c.read_buffer_size,
{
    let d = c.parity_depth as int;
    let b = s.data_num + s.code_num;
    let n = c.read_buffer_size as int;
    assert(0 * b * n == 0) by (nonlinear_arith);
    assert((d + 1) * b * n == d * b * n + b * n) by (nonlinear_arith);
}

} // verus!

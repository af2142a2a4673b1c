//! Cutting a stream of bytes into blocks.

use bytes::{Bytes, BytesMut};
use vstd::prelude::*;

#[allow(unused_imports)]
use crate::blocks;

verus! {

/// The full blocks of `block` bytes at the start of `all`.
pub open spec fn full_blocks(all: Seq<u8>, block: nat) -> Seq<Seq<u8>>
    decreases all.len(),
{
    if block == 0 || all.len() < block {
        seq![]
    } else {
        seq![all.take(block as int)] + full_blocks(all.skip(block as int), block)
    }
}

/// What is left of `all` behind its full blocks.
pub open spec fn remainder(all: Seq<u8>, block: nat) -> Seq<u8>
    decreases all.len(),
{
    if block == 0 || all.len() < block {
        all
    } else {
        remainder(all.skip(block as int), block)
    }
}

/// The bytes of all blocks, one after the other.
pub open spec fn flattened(parts: Seq<Seq<u8>>) -> Seq<u8>
    decreases parts.len(),
{
    if parts.len() == 0 {
        seq![]
    } else {
        parts[0] + flattened(parts.drop_first())
    }
}

/// The full blocks and the remainder make up the whole; the blocks have their
/// size, and the remainder is smaller.
pub proof fn lemma_blocks_make_up(all: Seq<u8>, block: nat)
    requires
        block > 0,
    ensures
        flattened(full_blocks(all, block)) + remainder(all, block) == all,
        remainder(all, block).len() < block,
        forall|i: int|
            0 <= i < full_blocks(all, block).len() ==> (#[trigger] full_blocks(all, block)[i]).len()
                == block,
    decreases all.len(),
{
    if all.len() >= block {
        let t = all.skip(block as int);
        lemma_blocks_make_up(t, block);
        let f = full_blocks(all, block);
        assert(f.drop_first() =~= full_blocks(t, block));
        assert(flattened(f) == all.take(block as int) + flattened(full_blocks(t, block)));
        assert(all =~= all.take(block as int) + t);
        assert(flattened(f) + remainder(all, block) =~= all.take(block as int) + (flattened(
            full_blocks(t, block),
        ) + remainder(t, block)));
        assert forall|i: int| 0 <= i < f.len() implies (#[trigger] f[i]).len() == block by {
            if i > 0 {
                assert(f[i] == full_blocks(t, block)[i - 1]);
            }
        }
    } else {
        assert(flattened(full_blocks(all, block)) + remainder(all, block) =~= all);
    }
}

/// How the source's reads are cut does not matter: the blocks of `a` and `d`
/// read at once are those of `a`, then those of its remainder and `d`.
pub proof fn lemma_reads_may_be_cut(a: Seq<u8>, d: Seq<u8>, block: nat)
    requires
        block > 0,
    ensures
        full_blocks(a + d, block) == full_blocks(a, block) + full_blocks(
            remainder(a, block) + d,
            block,
        ),
        remainder(a + d, block) == remainder(remainder(a, block) + d, block),
    decreases a.len(),
{
    if a.len() >= block {
        let t = a.skip(block as int);
        lemma_reads_may_be_cut(t, d, block);
        assert((a + d).take(block as int) =~= a.take(block as int));
        assert((a + d).skip(block as int) =~= t + d);
        assert(full_blocks(a + d, block) =~= full_blocks(a, block) + full_blocks(
            remainder(a, block) + d,
            block,
        ));
    } else {
        assert(full_blocks(a + d, block) =~= full_blocks(a, block) + full_blocks(
            remainder(a, block) + d,
            block,
        ));
    }
}

/// Collects what was read until it fills blocks.
pub struct FetchBuffer {
    buf: BytesMut,
    block: usize,
}

impl FetchBuffer {
    /// What was read and is not part of a full block yet.
    pub closed spec fn pending(self) -> Seq<u8> {
        blocks::buffered(self.buf)
    }

    pub closed spec fn block_size(self) -> nat {
        self.block as nat
    }

    /// Less than a block is pending.
    pub open spec fn well_formed(self) -> bool {
        self.pending().len() < self.block_size()
    }

    /// Nothing was read yet. Blocks without bytes are never filled, and what
    /// was read into them cannot be taken in.
    pub fn new(read_buffer_size: usize) -> (f: Self)
        requires
            read_buffer_size <= isize::MAX,
        ensures
            read_buffer_size > 0 ==> f.well_formed(),
            f.pending() == Seq::<u8>::empty(),
            f.block_size() == read_buffer_size,
    {
        FetchBuffer { buf: BytesMut::with_capacity(read_buffer_size), block: read_buffer_size }
    }

    /// Takes in what was read and hands out the blocks that it fills.
    pub fn feed(&mut self, data: &[u8]) -> (out: Vec<Bytes>)
        requires
            old(self).well_formed(),
            old(self).pending().len() + data@.len() <= isize::MAX / 4,
        ensures
            final(self).well_formed(),
            final(self).block_size() == old(self).block_size(),
            blocks::contents(out@) == full_blocks(
                old(self).pending() + data@,
                old(self).block_size(),
            ),
            final(self).pending() == remainder(
                old(self).pending() + data@,
                old(self).block_size(),
            ),
    {
        let ghost all = self.pending() + data@;
        let ghost size = self.block_size();
        let mut out: Vec<Bytes> = Vec::new();
        self.buf.extend_from_slice(data);
        assert(blocks::contents(out@) + full_blocks(self.pending(), size) =~= full_blocks(
            all,
            size,
        ));
        while self.buf.len() >= self.block
            invariant
                size == self.block_size(),
                size > 0,
                blocks::contents(out@) + full_blocks(self.pending(), size) == full_blocks(
                    all,
                    size,
                ),
                remainder(self.pending(), size) == remainder(all, size),
            decreases self.pending().len(),
        {
            let ghost before = self.pending();
            let head = self.buf.split_to(self.block);
            let b = head.freeze();
            proof {
                assert(blocks::contents(out@.push(b)) =~= blocks::contents(out@).push(
                    blocks::held(b),
                ));
                assert(blocks::contents(out@.push(b)) + full_blocks(self.pending(), size)
                    =~= blocks::contents(out@) + full_blocks(before, size));
            }
            out.push(b);
        }
        assert(blocks::contents(out@) + full_blocks(self.pending(), size) =~= blocks::contents(
            out@,
        ));
        out
    }

    /// At the end of the source: the last, partial block, if anything is
    /// pending.
    pub fn finish(self) -> (r: Option<Bytes>)
        ensures
            match r {
                Some(b) => self.pending().len() > 0 && blocks::held(b) == self.pending(),
                None => self.pending().len() == 0,
            },
    {
        if self.buf.is_empty() {
            None
        } else {
            Some(self.buf.freeze())
        }
    }
}

/// Less than a block waits in a buffer that is kept up.
pub proof fn lemma_less_than_a_block(f: FetchBuffer)
    requires
        f.well_formed(),
    ensures
        f.pending().len() < f.block_size(),
{
}

/// A full block at the start is cut off as it is; less than a block is left
/// alone.
pub proof fn lemma_blocks_cut_off(block: Seq<u8>, rest: Seq<u8>)
    requires
        block.len() > 0,
    ensures
        full_blocks(block + rest, block.len()) == seq![block] + full_blocks(rest, block.len()),
        remainder(block + rest, block.len()) == remainder(rest, block.len()),
        rest.len() < block.len() ==> full_blocks(rest, block.len()).len() == 0,
        rest.len() < block.len() ==> remainder(rest, block.len()) == rest,
        flattened(seq![block]) == block,
        flattened(Seq::empty()).len() == 0,
{
    let all = block + rest;
    let n = block.len() as int;
    assert(all.take(n) =~= block);
    assert(all.skip(n) =~= rest);
    assert(seq![block].drop_first() =~= Seq::empty());
    assert(flattened(seq![block]) =~= block) by {
        reveal_with_fuel(flattened, 2);
    }
}

} // verus!

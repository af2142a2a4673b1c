//! Blocks of bytes: what is assumed of the `bytes` crate.

use bytes::{Bytes, BytesMut};
use vstd::prelude::*;

verus! {

/// The shared, immutable byte buffer of the `bytes` crate.
#[verifier::external_type_specification]
#[verifier::external_body]
pub struct ExBytes(Bytes);

/// The growable byte buffer of the `bytes` crate.
#[verifier::external_type_specification]
#[verifier::external_body]
pub struct ExBytesMut(BytesMut);

/// The bytes that a `Bytes` holds.
pub uninterp spec fn held(b: Bytes) -> Seq<u8>;

/// The bytes that a `BytesMut` holds.
pub uninterp spec fn buffered(b: BytesMut) -> Seq<u8>;

/// `Bytes::len` counts the bytes.
pub assume_specification[ Bytes::len ](b: &Bytes) -> (n: usize)
    ensures
        n == held(*b).len(),
;

/// `Bytes::clone` makes another handle to the same bytes.
pub assume_specification[ <Bytes as Clone>::clone ](b: &Bytes) -> (r: Bytes)
    ensures
        held(r) == held(*b),
;

/// `Bytes::as_ref` borrows the bytes as a slice.
#[verifier::external_body]
pub(crate) fn slice_of(b: &Bytes) -> (s: &[u8])
    ensures
        s@ == held(*b),
{
    b.as_ref()
}

/// `BytesMut::with_capacity` makes an empty buffer; it panics where that many
/// bytes cannot be addressed.
pub assume_specification[ BytesMut::with_capacity ](capacity: usize) -> (b: BytesMut)
    requires
        capacity <= isize::MAX,
    ensures
        buffered(b) == Seq::<u8>::empty(),
;

/// `BytesMut::len` counts the bytes.
pub assume_specification[ BytesMut::len ](b: &BytesMut) -> (n: usize)
    ensures
        n == buffered(*b).len(),
;

/// `BytesMut::is_empty` tells whether there are no bytes.
pub assume_specification[ BytesMut::is_empty ](b: &BytesMut) -> (r: bool)
    ensures
        r == (buffered(*b).len() == 0),
;

/// `BytesMut::extend_from_slice` appends bytes; it panics where the buffer
/// would outgrow the address space. A buffer that has to grow is made at most
/// four times as large as what it is to hold.
pub assume_specification[ BytesMut::extend_from_slice ](b: &mut BytesMut, extend: &[u8])
    requires
        buffered(*old(b)).len() + extend@.len() <= isize::MAX / 4,
    ensures
        buffered(*final(b)) == buffered(*old(b)) + extend@,
;

/// `BytesMut::split_to` takes the first `at` bytes off; it panics where there
/// are fewer.
pub assume_specification[ BytesMut::split_to ](b: &mut BytesMut, at: usize) -> (head: BytesMut)
    requires
        at <= buffered(*old(b)).len(),
    ensures
        buffered(head) == buffered(*old(b)).take(at as int),
        buffered(*final(b)) == buffered(*old(b)).skip(at as int),
;

/// `BytesMut::freeze` keeps the bytes and ends their mutation.
pub assume_specification[ BytesMut::freeze ](b: BytesMut) -> (r: Bytes)
    ensures
        held(r) == buffered(b),
;

/// What the blocks hold.
pub open spec fn contents(blocks: Seq<Bytes>) -> Seq<Seq<u8>> {
    blocks.map_values(|b: Bytes| held(b))
}

/// The contents of blocks are those of each, in their order.
pub proof fn lemma_contents_one_by_one(blocks: Seq<Bytes>, i: int)
    ensures
        contents(blocks).len() == blocks.len(),
        0 <= i < blocks.len() ==> contents(blocks)[i] == held(blocks[i]),
{
}

} // verus!

//! The payload accumulation buffer.
//!
//! Sub-scans collect the bytes of a string body, a keyword or a number
//! span in a `smallvec::SmallVec`, which stores short runs inline and
//! spills longer ones to the heap.  `SmallVec`'s `Array` bound cannot
//! be declared to Verus, so the vector sits in the opaque [`ByteBuf`];
//! Verus sees it only through the trusted wrappers here.  [`buf_bytes`]
//! names the buffer's contents, and each wrapper states over that name
//! what the called `SmallVec` method does.

use vstd::prelude::*;

verus! {

/// An append-only byte buffer backed by `smallvec::SmallVec`.
#[verifier::external_body]
pub struct ByteBuf {
    inner: smallvec::SmallVec<[u8; 32]>,
}

/// The bytes a buffer holds, in order.
pub uninterp spec fn buf_bytes(v: ByteBuf) -> Seq<u8>;

/// Relies on `SmallVec::new`: it constructs an empty vector.
#[verifier::external_body]
pub(crate) fn buf_new() -> (r: ByteBuf)
    ensures
        buf_bytes(r) == Seq::<u8>::empty(),
{
    ByteBuf { inner: smallvec::SmallVec::new() }
}

/// Relies on `SmallVec::push`: it appends one item at the end.  When
/// `push` grows the buffer it rounds the new capacity up to a power of
/// two and panics if that exceeds the allocator's limit; the bound on
/// the length keeps the rounded capacity within it.
#[verifier::external_body]
pub(crate) fn buf_push(v: &mut ByteBuf, b: u8)
    requires
        buf_bytes(*old(v)).len() < usize::MAX / 4,
    ensures
        buf_bytes(*final(v)) == buf_bytes(*old(v)).push(b),
{
    v.inner.push(b)
}

/// Relies on `SmallVec::into_vec`: it converts the vector into a
/// `Vec` holding the same items in the same order.
#[verifier::external_body]
pub(crate) fn buf_take(v: ByteBuf) -> (r: Vec<u8>)
    ensures
        r@ == buf_bytes(v),
{
    v.inner.into_vec()
}

} // verus!

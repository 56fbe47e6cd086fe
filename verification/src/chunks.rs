//! The byte buffers that a stream arrives in, seen as the bytes they hold.

use bytes::BufMut;
use bytes::Bytes;
use bytes::BytesMut;
use smallvec::SmallVec;
use std::time::Duration;
use std::time::Instant;
use vstd::prelude::*;

verus! {

/// `bytes::Bytes`: a buffer of bytes that is shared when it is cloned.
#[verifier::external_type_specification]
#[verifier::external_body]
pub struct ExBytes(Bytes);

/// `bytes::BytesMut`: a buffer of bytes that is written to.
#[verifier::external_type_specification]
#[verifier::external_body]
pub struct ExBytesMut(BytesMut);

/// `std::time::Instant`: a time on the clock.
#[verifier::external_type_specification]
#[verifier::external_body]
pub struct ExInstant(Instant);

/// The chunks of one stream in the order of their arrival: a
/// `smallvec::SmallVec` of `Bytes`, which holds the first two in place,
/// without an allocation.
#[verifier::external_body]
pub struct ChunkList {
    inner: SmallVec<[Bytes; 2]>,
}

/// The bytes that a buffer holds.
pub uninterp spec fn bytes_contents(bytes: Bytes) -> Seq<u8>;

/// The bytes written to a buffer so far.
pub uninterp spec fn buffer_contents(buffer: BytesMut) -> Seq<u8>;

/// The chunks that a list holds, each as its bytes.
pub uninterp spec fn chunk_list(chunks: ChunkList) -> Seq<Seq<u8>>;

/// `Bytes::len`: the number of bytes held.
#[verifier::external_body]
pub(crate) fn bytes_len(bytes: &Bytes) -> (len: usize)
    ensures
        len == bytes_contents(*bytes).len(),
{
    bytes.len()
}

/// `Bytes::clone`: a second handle on the same bytes.
#[verifier::external_body]
pub(crate) fn bytes_clone(bytes: &Bytes) -> (copy: Bytes)
    ensures
        bytes_contents(copy) == bytes_contents(*bytes),
{
    bytes.clone()
}

/// `SmallVec::new`: a list without chunks.
#[verifier::external_body]
pub(crate) fn chunk_list_new() -> (chunks: ChunkList)
    ensures
        chunk_list(chunks).len() == 0,
{
    ChunkList { inner: SmallVec::new() }
}

/// `SmallVec::len`: the number of chunks.
#[verifier::external_body]
pub(crate) fn chunk_list_len(chunks: &ChunkList) -> (len: usize)
    ensures
        len == chunk_list(*chunks).len(),
{
    chunks.inner.len()
}

/// `SmallVec::push`: the chunk comes last.
#[verifier::external_body]
pub(crate) fn chunk_list_push(chunks: &mut ChunkList, chunk: Bytes)
    ensures
        chunk_list(*final(chunks)) == chunk_list(*old(chunks)).push(bytes_contents(chunk)),
{
    chunks.inner.push(chunk)
}

/// `SmallVec::pop`: the last chunk leaves the list and is returned; `None`
/// where the list is empty.
#[verifier::external_body]
pub(crate) fn chunk_list_pop(chunks: &mut ChunkList) -> (chunk: Option<Bytes>)
    ensures
        chunk_list(*old(chunks)).len() == 0 ==> chunk is None && chunk_list(*final(chunks))
            == chunk_list(*old(chunks)),
        chunk_list(*old(chunks)).len() > 0 ==> chunk is Some && bytes_contents(chunk->Some_0)
            == chunk_list(*old(chunks)).last() && chunk_list(*final(chunks)) == chunk_list(
            *old(chunks),
        ).drop_last(),
{
    chunks.inner.pop()
}

/// Indexing the list: the chunk at `index`.
#[verifier::external_body]
pub(crate) fn chunk_list_get(chunks: &ChunkList, index: usize) -> (chunk: &Bytes)
    requires
        index < chunk_list(*chunks).len(),
    ensures
        bytes_contents(*chunk) == chunk_list(*chunks)[index as int],
{
    &chunks.inner[index]
}

/// `SmallVec::clone`: a list of the same chunks. The bytes are shared, not
/// copied.
#[verifier::external_body]
pub(crate) fn chunk_list_clone(chunks: &ChunkList) -> (copy: ChunkList)
    ensures
        chunk_list(copy) == chunk_list(*chunks),
{
    ChunkList { inner: chunks.inner.clone() }
}

/// `BytesMut::with_capacity`: a buffer that holds no bytes yet. The
/// capacity may not pass the largest size of an allocation.
#[verifier::external_body]
pub(crate) fn buffer_with_capacity(capacity: usize) -> (buffer: BytesMut)
    requires
        capacity <= isize::MAX,
    ensures
        buffer_contents(buffer).len() == 0,
{
    BytesMut::with_capacity(capacity)
}

/// `BufMut::put_slice` on a `BytesMut`: the bytes of the chunk are written
/// behind those that the buffer holds. The buffer grows as needed; its
/// length may not pass the largest size of an allocation.
#[verifier::external_body]
pub(crate) fn buffer_put(buffer: &mut BytesMut, chunk: &Bytes)
    requires
        buffer_contents(*old(buffer)).len() + bytes_contents(*chunk).len() <= isize::MAX,
    ensures
        buffer_contents(*final(buffer)) == buffer_contents(*old(buffer)) + bytes_contents(
            *chunk,
        ),
{
    buffer.put_slice(chunk)
}

/// `BytesMut::freeze`: the bytes written, as a buffer that is not written to
/// any more.
#[verifier::external_body]
pub(crate) fn buffer_freeze(buffer: BytesMut) -> (bytes: Bytes)
    ensures
        bytes_contents(bytes) == buffer_contents(buffer),
{
    buffer.freeze()
}

/// `Instant::now`: the time on the clock. Nothing is claimed of it.
#[verifier::external_body]
pub(crate) fn instant_now() -> Instant {
    Instant::now()
}

/// `Instant::elapsed`: the time gone by since an instant, by the clock.
#[verifier::external_body]
pub(crate) fn instant_elapsed(start: &Instant) -> Duration {
    start.elapsed()
}

/// `Duration::as_micros`: a length of time in whole microseconds.
#[verifier::external_body]
pub(crate) fn duration_as_micros(duration: &Duration) -> u128 {
    duration.as_micros()
}

} // verus!

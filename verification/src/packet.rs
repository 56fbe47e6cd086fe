//! From the chunks of a stream to one packet.

use crate::chunks::buffer_contents;
use crate::chunks::buffer_freeze;
use crate::chunks::buffer_put;
use crate::chunks::buffer_with_capacity;
use crate::chunks::bytes_clone;
use crate::chunks::bytes_contents;
use crate::chunks::bytes_len;
use crate::chunks::chunk_list;
use crate::chunks::chunk_list_clone;
use crate::chunks::chunk_list_get;
use crate::chunks::chunk_list_len;
use crate::chunks::chunk_list_new;
use crate::chunks::chunk_list_pop;
use crate::chunks::chunk_list_push;
use crate::chunks::instant_now;
use crate::chunks::ChunkList;
use crate::handoff::try_send_packet;
use crate::handoff::SendOutcome;
use crate::limits::PACKET_DATA_SIZE;
use crate::peer::ConnectionPeerType;
use crate::peer::IpAddress;
use crate::stats::count;
use crate::stats::StreamerStats;
use bytes::Bytes;
use bytes::BytesMut;
use crossbeam_channel::Sender;
use std::time::Instant;
use vstd::prelude::*;

verus! {

/// What is known of a packet besides its bytes.
#[derive(Clone, Copy, Debug, PartialEq, Eq, Structural)]
pub struct PacketMeta {
    /// The number of bytes of the packet.
    pub size: usize,
    pub addr: IpAddress,
    pub port: u16,
    pub from_staked_node: bool,
    /// Whether the time that the packet takes through the server is
    /// measured.
    pub track_performance: bool,
}

impl PacketMeta {
    /// The meta of a packet from the given address, of which no byte has
    /// arrived yet.
    pub fn new(addr: IpAddress, port: u16, from_staked_node: bool) -> (meta: Self)
        ensures
            meta == (PacketMeta {
                size: 0,
                addr,
                port,
                from_staked_node,
                track_performance: false,
            }),
    {
        PacketMeta { size: 0, addr, port, from_staked_node, track_performance: false }
    }
}

/// The number of bytes in all chunks together.
pub open spec fn total_len(chunks: Seq<Seq<u8>>) -> nat
    decreases chunks.len(),
{
    if chunks.len() == 0 {
        0
    } else {
        total_len(chunks.drop_last()) + chunks.last().len()
    }
}

/// The bytes of all chunks, one chunk after the other.
pub open spec fn concat(chunks: Seq<Seq<u8>>) -> Seq<u8>
    decreases chunks.len(),
{
    if chunks.len() == 0 {
        Seq::empty()
    } else {
        concat(chunks.drop_last()) + chunks.last()
    }
}

/// The number of leading chunks that a stream which holds `size` bytes
/// already can take in: those before the first chunk with which the stream
/// would pass the size of a packet.
pub open spec fn accepted(size: nat, chunks: Seq<Seq<u8>>) -> nat
    decreases chunks.len(),
{
    if chunks.len() == 0 {
        0
    } else {
        let before = accepted(size, chunks.drop_last());
        if before == chunks.len() - 1 && size + total_len(chunks) <= PACKET_DATA_SIZE {
            chunks.len()
        } else {
            before
        }
    }
}

pub proof fn lemma_total_len_push(chunks: Seq<Seq<u8>>, chunk: Seq<u8>)
    ensures
        total_len(chunks.push(chunk)) == total_len(chunks) + chunk.len(),
        concat(chunks.push(chunk)) == concat(chunks) + chunk,
{
    assert(chunks.push(chunk).drop_last() == chunks);
}

pub proof fn lemma_total_len_add(front: Seq<Seq<u8>>, back: Seq<Seq<u8>>)
    ensures
        total_len(front + back) == total_len(front) + total_len(back),
        concat(front + back) == concat(front) + concat(back),
        concat(front + back).len() == total_len(front + back),
    decreases back.len(),
{
    if back.len() == 0 {
        assert(front + back == front);
        lemma_concat_len(front);
    } else {
        lemma_total_len_add(front, back.drop_last());
        assert((front + back).drop_last() == front + back.drop_last());
        assert((front + back).last() == back.last());
    }
}

/// The bytes of a stream are as many as its chunks hold.
pub proof fn lemma_concat_len(chunks: Seq<Seq<u8>>)
    ensures
        concat(chunks).len() == total_len(chunks),
    decreases chunks.len(),
{
    if chunks.len() > 0 {
        lemma_concat_len(chunks.drop_last());
    }
}

/// Once a chunk does not fit, no later chunk is taken in.
pub proof fn lemma_accepted_stops(size: nat, chunks: Seq<Seq<u8>>, at: int)
    requires
        0 <= at < chunks.len(),
        accepted(size, chunks.take(at + 1)) == at,
    ensures
        accepted(size, chunks) == at,
    decreases chunks.len(),
{
    if chunks.len() == at + 1 {
        assert(chunks.take(at + 1) == chunks);
    } else {
        assert(chunks.drop_last().take(at + 1) == chunks.take(at + 1));
        lemma_accepted_stops(size, chunks.drop_last(), at);
    }
}

/// Chunks that fit all together are all taken in.
pub proof fn lemma_accepted_all(size: nat, chunks: Seq<Seq<u8>>)
    requires
        size + total_len(chunks) <= PACKET_DATA_SIZE,
    ensures
        accepted(size, chunks) == chunks.len(),
    decreases chunks.len(),
{
    if chunks.len() > 0 {
        lemma_accepted_all(size, chunks.drop_last());
    }
}

/// The chunks taken in never pass the size of a packet, and where not all
/// are taken in, the next one would.
pub proof fn lemma_accepted_fits(size: nat, chunks: Seq<Seq<u8>>)
    requires
        size <= PACKET_DATA_SIZE,
    ensures
        accepted(size, chunks) <= chunks.len(),
        size + total_len(chunks.take(accepted(size, chunks) as int)) <= PACKET_DATA_SIZE,
        accepted(size, chunks) < chunks.len() ==> size + total_len(
            chunks.take(accepted(size, chunks) as int + 1),
        ) > PACKET_DATA_SIZE,
    decreases chunks.len(),
{
    if chunks.len() == 0 {
        assert(chunks.take(0) == chunks);
    } else {
        let front = chunks.drop_last();
        lemma_accepted_fits(size, front);
        let before = accepted(size, front);
        assert(front.take(before as int) == chunks.take(before as int));
        if before == chunks.len() - 1 {
            assert(chunks.take(chunks.len() as int) == chunks);
            assert(chunks.take(before as int + 1) == chunks);
        } else {
            assert(front.take(before as int + 1) == chunks.take(before as int + 1));
        }
    }
}

/// Why a stream has ended without a packet.
#[derive(Clone, Copy, Debug, PartialEq, Eq, Structural)]
pub enum StreamError {
    /// The stream holds more bytes than a packet may: the connection is to
    /// be closed.
    InvalidSize,
    /// The stream was finished before any chunk came: there is nothing to
    /// forward.
    Empty,
}

/// Where a stream stands after chunks were taken in.
#[derive(Clone, Copy, Debug, PartialEq, Eq, Structural)]
pub enum StreamState {
    /// Stream is not finished, keep receiving chunks
    Receiving,
    /// Stream is finished
    Finished,
}

/// Gathers the chunks of one stream, with the meta of the packet that they
/// make up.
pub struct PacketAccumulator {
    pub meta: PacketMeta,
    pub chunks: ChunkList,
    pub start_time: Instant,
}

impl PacketAccumulator {
    /// The chunks gathered so far, each as its bytes.
    pub open spec fn gathered(&self) -> Seq<Seq<u8>> {
        chunk_list(self.chunks)
    }

    /// The invariant of an accumulator: the size in its meta is the number
    /// of bytes that it holds, and that is no more than a packet may hold.
    pub open spec fn wf(&self) -> bool {
        &&& self.meta.size == total_len(self.gathered())
        &&& self.meta.size <= PACKET_DATA_SIZE
    }

    /// An accumulator without chunks, for a stream that begins now.
    pub fn new(meta: PacketMeta) -> (accum: Self)
        ensures
            accum.meta == meta,
            accum.gathered().len() == 0,
            meta.size == 0 ==> accum.wf(),
    {
        PacketAccumulator { meta, chunks: chunk_list_new(), start_time: instant_now() }
    }

    /// The number of chunks gathered so far.
    pub fn num_chunks(&self) -> (count: usize)
        ensures
            count == self.gathered().len(),
    {
        chunk_list_len(&self.chunks)
    }

    /// Takes in one chunk, unless the stream would pass the size of a packet
    /// with it: then nothing changes.
    pub fn push_chunk(&mut self, chunk: Bytes) -> (taken: bool)
        requires
            old(self).wf(),
        ensures
            final(self).wf(),
            taken == (old(self).meta.size + bytes_contents(chunk).len() <= PACKET_DATA_SIZE),
            taken ==> final(self).gathered() == old(self).gathered().push(bytes_contents(chunk))
                && final(self).meta == (PacketMeta {
                size: (old(self).meta.size + bytes_contents(chunk).len()) as usize,
                ..old(self).meta
            }),
            !taken ==> final(self).gathered() == old(self).gathered() && final(self).meta == old(
                self,
            ).meta,
            final(self).start_time == old(self).start_time,
    {
        let len: usize = bytes_len(&chunk);
        if len > PACKET_DATA_SIZE - self.meta.size {
            return false;
        }
        proof {
            lemma_total_len_push(self.gathered(), bytes_contents(chunk));
        }
        self.meta.size = self.meta.size + len;
        chunk_list_push(&mut self.chunks, chunk);
        true
    }

    /// A second accumulator with the same meta and the same chunks. The
    /// bytes are shared, not copied.
    pub fn duplicate(&self) -> (copy: Self)
        ensures
            copy.meta == self.meta,
            copy.gathered() == self.gathered(),
            copy.start_time == self.start_time,
    {
        PacketAccumulator {
            meta: self.meta,
            chunks: chunk_list_clone(&self.chunks),
            start_time: self.start_time,
        }
    }
}

/// The chunks of a read, each as its bytes.
pub open spec fn chunk_bytes(chunks: Seq<Bytes>) -> Seq<Seq<u8>> {
    Seq::new(chunks.len(), |i: int| bytes_contents(chunks[i]))
}

/// What `handle_chunks` returns for a read of `read` chunks on a stream
/// that held `held` chunks of `size` bytes together.
///
/// A read without chunks marks the end of the stream. A stream that ends
/// without any chunk is empty; one that would pass the size of a packet is
/// invalid.
pub open spec fn stream_state_after(held: nat, size: nat, read: Seq<Seq<u8>>) -> Result<
    StreamState,
    StreamError,
> {
    if accepted(size, read) < read.len() {
        Err(StreamError::InvalidSize)
    } else if read.len() != 0 {
        Ok(StreamState::Receiving)
    } else if held == 0 {
        Err(StreamError::Empty)
    } else {
        Ok(StreamState::Finished)
    }
}

/// Counts a packet that was handed to the batcher, or that could not be.
pub fn record_handoff(
    stats: &StreamerStats,
    outcome: SendOutcome,
    bytes_sent: usize,
    chunks_sent: usize,
    peer_type: ConnectionPeerType,
) {
    match outcome {
        SendOutcome::Sent => {
            count(&stats.total_packets_sent_for_batching, 1);
            count(&stats.total_bytes_sent_for_batching, bytes_sent);
            count(&stats.total_chunks_sent_for_batching, chunks_sent);
            match peer_type {
                ConnectionPeerType::Unstaked => {
                    count(&stats.total_unstaked_packets_sent_for_batching, 1);
                },
                ConnectionPeerType::Staked(_) => {
                    count(&stats.total_staked_packets_sent_for_batching, 1);
                },
            }
        },
        SendOutcome::Full => {
            count(&stats.total_handle_chunk_to_packet_batcher_send_err, 1);
            count(&stats.total_handle_chunk_to_packet_batcher_send_full_err, 1);
        },
        SendOutcome::Disconnected => {
            count(&stats.total_handle_chunk_to_packet_batcher_send_err, 1);
            count(&stats.total_handle_chunk_to_packet_batcher_send_disconnected_err, 1);
        },
    }
}

/// Handle the chunks received from the stream. If the stream is finished,
/// send the packet to the packet sender.
///
/// The chunks are taken in one after the other, up to the first with which
/// the stream would pass the size of a packet. A read without chunks ends
/// the stream: the packet is then handed to the queue without waiting, and
/// dropped where the queue does not take it.
pub fn handle_chunks(
    chunks: &[Bytes],
    accum: &mut PacketAccumulator,
    packet_sender: &Sender<PacketAccumulator>,
    stats: &StreamerStats,
    peer_type: ConnectionPeerType,
) -> (state: Result<StreamState, StreamError>)
    requires
        old(accum).wf(),
    ensures
        final(accum).wf(),
        final(accum).gathered() == old(accum).gathered() + chunk_bytes(chunks@).take(
            accepted(old(accum).meta.size as nat, chunk_bytes(chunks@)) as int,
        ),
        final(accum).meta == (PacketMeta {
            size: final(accum).meta.size,
            ..old(accum).meta
        }),
        final(accum).start_time == old(accum).start_time,
        state == stream_state_after(
            old(accum).gathered().len(),
            old(accum).meta.size as nat,
            chunk_bytes(chunks@),
        ),
{
    let ghost held = accum.gathered();
    let ghost size = accum.meta.size as nat;
    let ghost read = chunk_bytes(chunks@);
    let n_chunks: usize = chunks.len();
    let mut i: usize = 0;
    proof {
        assert(held + read.take(0) == held);
    }
    while i < n_chunks
        invariant
            n_chunks == chunks@.len(),
            read == chunk_bytes(chunks@),
            held == old(accum).gathered(),
            size == old(accum).meta.size,
            i <= n_chunks,
            accum.wf(),
            accum.gathered() == held + read.take(i as int),
            accum.meta.size == size + total_len(read.take(i as int)),
            accepted(size, read.take(i as int)) == i,
            accum.meta == (PacketMeta { size: accum.meta.size, ..old(accum).meta }),
            accum.start_time == old(accum).start_time,
        decreases n_chunks - i,
    {
        proof {
            assert(read.take(i + 1).drop_last() == read.take(i as int));
            assert(read.take(i + 1).last() == bytes_contents(chunks@[i as int]));
        }
        let taken: bool = accum.push_chunk(bytes_clone(&chunks[i]));
        if !taken {
            // The stream window size is set to PACKET_DATA_SIZE, so one individual chunk can
            // never exceed this size. A peer can send two chunks that together exceed the size
            // tho, in which case we report the error.
            count(&stats.invalid_stream_size, 1);
            proof {
                lemma_accepted_stops(size, read, i as int);
            }
            return Err(StreamError::InvalidSize);
        }
        if peer_type.is_staked() {
            count(&stats.total_staked_chunks_received, 1);
        } else {
            count(&stats.total_unstaked_chunks_received, 1);
        }
        proof {
            assert(held + read.take(i as int).push(read[i as int]) == held + read.take(i + 1));
        }
        i = i + 1;
    }
    proof {
        assert(read.take(i as int) == read);
    }
    // n_chunks == 0 marks the end of a stream
    if n_chunks != 0 {
        return Ok(StreamState::Receiving);
    }
    proof {
        assert(held + read == held);
    }
    if accum.num_chunks() == 0 {
        count(&stats.total_packet_batches_none, 1);
        return Err(StreamError::Empty);
    }
    // done receiving chunks
    let bytes_sent: usize = accum.meta.size;
    let chunks_sent: usize = accum.num_chunks();
    let outcome: SendOutcome = try_send_packet(packet_sender, accum.duplicate());
    record_handoff(stats, outcome, bytes_sent, chunks_sent, peer_type);
    Ok(StreamState::Finished)
}

/// A packet as it leaves the server: its bytes in one buffer, and its meta.
pub struct Packet {
    pub buffer: Bytes,
    pub meta: PacketMeta,
}

impl Packet {
    /// The bytes of the packet.
    pub open spec fn data(&self) -> Seq<u8> {
        bytes_contents(self.buffer)
    }
}

/// Makes the packet of a finished stream: its bytes are those of the chunks
/// in the order of their arrival.
///
/// A single chunk becomes the buffer of the packet as it is. Several chunks
/// are copied into one buffer.
pub fn into_packet(accum: PacketAccumulator) -> (packet: Packet)
    requires
        accum.wf(),
    ensures
        packet.data() == concat(accum.gathered()),
        packet.data().len() == accum.meta.size,
        packet.meta == accum.meta,
{
    let mut accum = accum;
    let ghost gathered = accum.gathered();
    proof {
        lemma_concat_len(gathered);
    }
    let num_chunks: usize = accum.num_chunks();
    if num_chunks == 1 {
        match chunk_list_pop(&mut accum.chunks) {
            Some(chunk) => {
                proof {
                    assert(gathered.drop_last().len() == 0);
                    assert(concat(gathered) == concat(gathered.drop_last()) + gathered.last());
                    assert(concat(gathered.drop_last()) + gathered.last() == gathered.last());
                }
                return Packet { buffer: chunk, meta: accum.meta };
            },
            None => {},
        }
    }
    let mut buffer: BytesMut = buffer_with_capacity(accum.meta.size);
    let mut i: usize = 0;
    proof {
        assert(buffer_contents(buffer) == concat(gathered.take(0)));
    }
    while i < num_chunks
        invariant
            num_chunks == gathered.len(),
            gathered == accum.gathered(),
            total_len(gathered) <= PACKET_DATA_SIZE,
            i <= num_chunks,
            buffer_contents(buffer) == concat(gathered.take(i as int)),
        decreases num_chunks - i,
    {
        proof {
            assert(gathered.take(i + 1).drop_last() == gathered.take(i as int));
            assert(gathered.take(i + 1).last() == gathered[i as int]);
            assert(gathered.take(i + 1) + gathered.skip(i + 1) == gathered);
            lemma_total_len_add(gathered.take(i + 1), gathered.skip(i + 1));
            lemma_concat_len(gathered.take(i as int));
        }
        buffer_put(&mut buffer, chunk_list_get(&accum.chunks, i));
        i = i + 1;
    }
    proof {
        assert(gathered.take(i as int) == gathered);
    }
    Packet { buffer: buffer_freeze(buffer), meta: accum.meta }
}

} // verus!

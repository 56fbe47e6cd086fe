//! The decisions of the task that serves one connection: when the next
//! stream is taken, and what follows from what a read has brought.

use crate::connection_entry::CONNECTION_CLOSE_CODE_INVALID_STREAM;
use crate::packet::accepted;
use crate::packet::concat;
use crate::packet::lemma_accepted_all;
use crate::packet::lemma_accepted_fits;
use crate::packet::lemma_total_len_add;
use crate::packet::stream_state_after;
use crate::packet::total_len;
use crate::packet::StreamError;
use crate::packet::StreamState;
use crate::limits::PACKET_DATA_SIZE;
use crate::peer::ConnectionPeerType;
use crate::peer::STREAM_THROTTLING_INTERVAL_MS;
use crate::stats::count;
use crate::stats::uncount;
use crate::stats::StreamerStats;
use vstd::prelude::*;

verus! {

/// The length of the throttling interval, in nanoseconds.
pub const STREAM_THROTTLING_INTERVAL_NANOS: u64 = 100_000_000;

/// The interval in nanoseconds is the interval in milliseconds.
pub proof fn lemma_throttling_interval_units()
    ensures
        STREAM_THROTTLING_INTERVAL_NANOS == STREAM_THROTTLING_INTERVAL_MS * 1_000_000,
{
}

/// For how long the next stream of a peer is held back, in nanoseconds.
///
/// A peer that has opened as many streams in the current interval as it is
/// allowed waits for what is left of the interval. `elapsed` is the time
/// since the interval began, in nanoseconds.
pub open spec fn throttle_nanos(
    streams_read_in_throttle_interval: u64,
    max_streams_per_throttling_interval: u64,
    elapsed: u128,
) -> int {
    if streams_read_in_throttle_interval >= max_streams_per_throttling_interval && elapsed
        < STREAM_THROTTLING_INTERVAL_NANOS {
        STREAM_THROTTLING_INTERVAL_NANOS - elapsed
    } else {
        0
    }
}

/// The time to sleep before the next stream is taken; zero where the peer
/// is within its allowance or the interval is over.
pub fn throttle_duration(
    streams_read_in_throttle_interval: u64,
    max_streams_per_throttling_interval: u64,
    elapsed: u128,
) -> (nanos: u64)
    ensures
        nanos == throttle_nanos(
            streams_read_in_throttle_interval,
            max_streams_per_throttling_interval,
            elapsed,
        ),
{
    if streams_read_in_throttle_interval >= max_streams_per_throttling_interval && elapsed
        < STREAM_THROTTLING_INTERVAL_NANOS as u128 {
        STREAM_THROTTLING_INTERVAL_NANOS - (elapsed as u64)
    } else {
        0
    }
}

/// A throttled stream is only ever delayed, and by at least what is left of
/// the interval; a peer within its allowance is not delayed at all.
pub proof fn lemma_throttle_covers_interval(streams_read: u64, max_streams: u64, elapsed: u128)
    ensures
        streams_read >= max_streams ==> throttle_nanos(streams_read, max_streams, elapsed)
            + elapsed >= STREAM_THROTTLING_INTERVAL_NANOS,
        streams_read < max_streams ==> throttle_nanos(streams_read, max_streams, elapsed) == 0,
        0 <= throttle_nanos(streams_read, max_streams, elapsed)
            <= STREAM_THROTTLING_INTERVAL_NANOS,
{
}

/// Counts a stream that is held back, if it is: by `throttle_nanos`.
pub fn record_throttle(stats: &StreamerStats, throttle_nanos: u64, peer_type: ConnectionPeerType) {
    if throttle_nanos != 0 {
        count(&stats.throttled_streams, 1);
        match peer_type {
            ConnectionPeerType::Unstaked => {
                count(&stats.throttled_unstaked_streams, 1);
            },
            ConnectionPeerType::Staked(_) => {
                count(&stats.throttled_staked_streams, 1);
            },
        }
    }
}

/// Counts a stream that was taken.
pub fn record_new_stream(stats: &StreamerStats) {
    count(&stats.total_streams, 1);
    count(&stats.total_new_streams, 1);
}

/// Counts a stream as over.
pub fn record_stream_done(stats: &StreamerStats) {
    uncount(&stats.total_streams, 1);
}

/// What a wait for the chunks of a stream has brought.
#[derive(Clone, Copy, Debug, PartialEq, Eq, Structural)]
pub enum ReadOutcome {
    /// The read has brought this many chunks; none at the end of the stream.
    Chunks(usize),
    /// The read has failed.
    ReadError,
    /// No chunk has come within the time allowed.
    Timeout,
}

/// What the task does next on a stream.
#[derive(Clone, Copy, Debug, PartialEq, Eq, Structural)]
pub enum StreamAction {
    /// Read on.
    KeepReading,
    /// The stream is over and a packet was made of it: the time of the last
    /// activity is set, and the next stream is waited for.
    StreamFinished,
    /// The stream is given up without a packet; the connection stays.
    StreamAbandoned,
    /// The connection is closed with this code, and the task ends.
    CloseConnection(u32),
}

/// What follows from a read that has brought no chunks to handle: a failed
/// read or a timeout ends the stream, and the connection stays.
pub open spec fn action_after_read(outcome: ReadOutcome) -> Option<StreamAction> {
    match outcome {
        ReadOutcome::Chunks(_) => None,
        ReadOutcome::ReadError => Some(StreamAction::StreamAbandoned),
        ReadOutcome::Timeout => Some(StreamAction::StreamAbandoned),
    }
}

/// Decides on a read: `None` where chunks have come, which are then to be
/// handled; the end of the stream otherwise.
pub fn on_read(stats: &StreamerStats, outcome: ReadOutcome) -> (action: Option<StreamAction>)
    ensures
        action == action_after_read(outcome),
{
    match outcome {
        ReadOutcome::Chunks(_) => None,
        ReadOutcome::ReadError => {
            count(&stats.total_stream_read_errors, 1);
            Some(StreamAction::StreamAbandoned)
        },
        ReadOutcome::Timeout => {
            count(&stats.total_stream_read_timeouts, 1);
            Some(StreamAction::StreamAbandoned)
        },
    }
}

/// What follows from the chunks of a read: a stream of invalid size closes
/// the connection; an empty stream is given up without a word, and the
/// connection stays.
pub open spec fn action_after_chunks(state: Result<StreamState, StreamError>) -> StreamAction {
    match state {
        Ok(StreamState::Receiving) => StreamAction::KeepReading,
        Ok(StreamState::Finished) => StreamAction::StreamFinished,
        Err(StreamError::Empty) => StreamAction::StreamAbandoned,
        Err(StreamError::InvalidSize) => StreamAction::CloseConnection(
            CONNECTION_CLOSE_CODE_INVALID_STREAM,
        ),
    }
}

pub fn on_chunks(state: Result<StreamState, StreamError>) -> (action: StreamAction)
    ensures
        action == action_after_chunks(state),
{
    match state {
        Ok(StreamState::Receiving) => StreamAction::KeepReading,
        Ok(StreamState::Finished) => StreamAction::StreamFinished,
        Err(StreamError::Empty) => StreamAction::StreamAbandoned,
        Err(StreamError::InvalidSize) => StreamAction::CloseConnection(
            CONNECTION_CLOSE_CODE_INVALID_STREAM,
        ),
    }
}

/// Counts the end of a connection: `removed` entries have left the table
/// with it.
pub fn record_disconnect(stats: &StreamerStats, removed: usize) {
    if removed > 0 {
        count(&stats.connection_removed, removed);
    } else {
        count(&stats.connection_remove_failed, 1);
    }
    uncount(&stats.total_connections, 1);
}

/// Chunks that fit into a packet are all taken in, and the bytes gathered
/// are theirs in the order of their arrival, behind those that the stream
/// held already.
pub proof fn lemma_reassembly_in_order(held: Seq<Seq<u8>>, read: Seq<Seq<u8>>)
    requires
        total_len(held) + total_len(read) <= PACKET_DATA_SIZE,
    ensures
        accepted(total_len(held), read) == read.len(),
        concat(held + read.take(accepted(total_len(held), read) as int)) == concat(held) + concat(
            read,
        ),
        read.len() > 0 ==> stream_state_after(held.len(), total_len(held), read) == Ok::<
            StreamState,
            StreamError,
        >(StreamState::Receiving),
{
    lemma_accepted_all(total_len(held), read);
    assert(read.take(read.len() as int) == read);
    lemma_total_len_add(held, read);
}

/// A stream that ends without a chunk makes no packet, and one that ends
/// with chunks is finished: a read without chunks on a stream that holds
/// some says so.
pub proof fn lemma_end_of_stream(held: Seq<Seq<u8>>)
    requires
        total_len(held) <= PACKET_DATA_SIZE,
    ensures
        stream_state_after(held.len(), total_len(held), Seq::<Seq<u8>>::empty()) == if held.len()
            == 0 {
            Err::<StreamState, StreamError>(StreamError::Empty)
        } else {
            Ok::<StreamState, StreamError>(StreamState::Finished)
        },
        action_after_chunks(Err(StreamError::Empty)) == StreamAction::StreamAbandoned,
{
}

/// Chunks that pass the size of a packet together make the stream invalid,
/// and the connection is closed with the code for an invalid stream. No
/// chunk is taken in from the first on that does not fit.
pub proof fn lemma_oversized_stream_closes(held: Seq<Seq<u8>>, read: Seq<Seq<u8>>)
    requires
        total_len(held) <= PACKET_DATA_SIZE,
        total_len(held) + total_len(read) > PACKET_DATA_SIZE,
    ensures
        accepted(total_len(held), read) < read.len(),
        stream_state_after(held.len(), total_len(held), read) == Err::<StreamState, StreamError>(
            StreamError::InvalidSize,
        ),
        action_after_chunks(stream_state_after(held.len(), total_len(held), read))
            == StreamAction::CloseConnection(CONNECTION_CLOSE_CODE_INVALID_STREAM),
{
    lemma_accepted_fits(total_len(held), read);
    if accepted(total_len(held), read) == read.len() {
        assert(read.take(read.len() as int) == read);
    }
}

} // verus!

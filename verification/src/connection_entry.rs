//! The record kept for one live connection, and the guard that counts it
//! among the open ones.

use crate::peer::ConnectionPeerType;
use crate::peer::STREAM_THROTTLING_INTERVAL_MS;
use crate::stats::StreamerStats;
use crate::transport::cancel_on_drop;
use crate::transport::close_connection;
use crate::transport::connection_stable_id;
use quinn::Connection;
use std::sync::atomic::AtomicU64;
use std::sync::atomic::Ordering;
use std::sync::Arc;
use tokio_util::sync::CancellationToken;
use tokio_util::sync::DropGuard;
use vstd::prelude::*;

verus! {

pub const CONNECTION_CLOSE_CODE_DROPPED_ENTRY: u32 = 1;

pub const CONNECTION_CLOSE_CODE_DISALLOWED: u32 = 2;

pub const CONNECTION_CLOSE_CODE_EXCEED_MAX_STREAM_COUNT: u32 = 3;

pub const CONNECTION_CLOSE_CODE_TOO_MANY: u32 = 4;

pub const CONNECTION_CLOSE_CODE_INVALID_STREAM: u32 = 5;

/// The reason that goes with a close code, as the peer is told it.
pub open spec fn close_reason(code: u32) -> Seq<char> {
    if code == CONNECTION_CLOSE_CODE_DROPPED_ENTRY {
        "dropped"@
    } else if code == CONNECTION_CLOSE_CODE_DISALLOWED {
        "disallowed"@
    } else if code == CONNECTION_CLOSE_CODE_EXCEED_MAX_STREAM_COUNT {
        "exceed_max_stream_count"@
    } else if code == CONNECTION_CLOSE_CODE_TOO_MANY {
        "too_many"@
    } else if code == CONNECTION_CLOSE_CODE_INVALID_STREAM {
        "invalid_stream"@
    } else {
        ""@
    }
}

/// The reason that goes with a close code; empty for a code that the server
/// does not use.
pub fn connection_close_reason(code: u32) -> (reason: &'static str)
    ensures
        reason@ == close_reason(code),
{
    if code == CONNECTION_CLOSE_CODE_DROPPED_ENTRY {
        "dropped"
    } else if code == CONNECTION_CLOSE_CODE_DISALLOWED {
        "disallowed"
    } else if code == CONNECTION_CLOSE_CODE_EXCEED_MAX_STREAM_COUNT {
        "exceed_max_stream_count"
    } else if code == CONNECTION_CLOSE_CODE_TOO_MANY {
        "too_many"
    } else if code == CONNECTION_CLOSE_CODE_INVALID_STREAM {
        "invalid_stream"
    } else {
        ""
    }
}

/// Closes a connection with a code and the reason that goes with it.
pub fn close_with_code(connection: &Connection, code: u32) {
    close_connection(connection, code, connection_close_reason(code));
}

/// Whether one more connection may be opened when `open_connections` are
/// open already.
pub open spec fn connection_allowed(open_connections: usize, max_concurrent_connections: usize)
    -> bool {
    open_connections < max_concurrent_connections
}

/// The ceiling on open connections: a connection is refused once the number of open ones
/// has reached the ceiling.
pub fn is_connection_allowed(open_connections: usize, max_concurrent_connections: usize) -> (allowed:
    bool)
    ensures
        allowed == connection_allowed(open_connections, max_concurrent_connections),
{
    open_connections < max_concurrent_connections
}

/// Counts one open connection for as long as it lives: the count goes up
/// when the guard is made and down when it is dropped.
pub struct ClientConnectionTracker {
    stats: Arc<StreamerStats>,
}

/// `AtomicUsize::fetch_sub` on the count of open connections, for use where
/// a guard is dropped. The operation wraps on overflow; that it does not
/// unwind is what is claimed of it here.
#[verifier::external_body]
fn release_open_connection(stats: &Arc<StreamerStats>)
    opens_invariants none
    no_unwind
{
    stats.open_connections.fetch_sub(1, Ordering::Relaxed);
}

impl ClientConnectionTracker {
    /// Counts a new connection, unless `max_concurrent_connections` are open
    /// already: then the count is left as it was and the connection is to be
    /// refused. The count is shared, so which of the two happens rests on the
    /// value that this call finds; `is_connection_allowed` is the rule. Under
    /// a ceiling of zero no connection is ever counted. The guard counts on
    /// the counters that it was given, and takes its connection off them
    /// when it is dropped.
    pub fn new(stats: Arc<StreamerStats>, max_concurrent_connections: usize) -> (tracker: Result<
        Self,
        (),
    >)
        ensures
            max_concurrent_connections == 0 ==> tracker is Err,
            tracker is Ok ==> tracker->Ok_0.counted_on() == stats,
    {
        let open_connections: usize = stats.open_connections.fetch_add(1, Ordering::Relaxed);
        if !is_connection_allowed(open_connections, max_concurrent_connections) {
            stats.open_connections.fetch_sub(1, Ordering::Relaxed);
            return Err(());
        }
        Ok(ClientConnectionTracker { stats })
    }

    /// The counters on which the guard counts its connection.
    pub closed spec fn counted_on(&self) -> Arc<StreamerStats> {
        self.stats
    }
}

impl Drop for ClientConnectionTracker {
    fn drop(&mut self)
        opens_invariants none
        no_unwind
    {
        release_open_connection(&self.stats);
    }
}

/// Whether the throttling interval that began at `interval_start` is over at
/// `now`, both in milliseconds.
pub open spec fn throttling_interval_over(interval_start: u64, now: u64) -> bool {
    now > interval_start && now - interval_start > STREAM_THROTTLING_INTERVAL_MS
}

pub fn is_throttling_interval_over(interval_start: u64, now: u64) -> (over: bool)
    ensures
        over == throttling_interval_over(interval_start, now),
{
    now > interval_start && now - interval_start > STREAM_THROTTLING_INTERVAL_MS
}

/// The start of the throttling interval that is current at `now`, where the
/// last interval began at `interval_start`: `now` once that interval is
/// over, `interval_start` until then.
pub open spec fn interval_start_at(interval_start: u64, now: u64) -> u64 {
    if throttling_interval_over(interval_start, now) {
        now
    } else {
        interval_start
    }
}

pub fn current_interval_start(interval_start: u64, now: u64) -> (current_start: u64)
    ensures
        current_start == interval_start_at(interval_start, now),
{
    if is_throttling_interval_over(interval_start, now) {
        now
    } else {
        interval_start
    }
}

/// The streams that the connections of one peer have opened in the current
/// throttling interval. All connections under one key share one counter.
pub struct ConnectionStreamCounter {
    pub stream_count: AtomicU64,
    interval_start: AtomicU64,
}

impl ConnectionStreamCounter {
    /// A counter at zero whose interval begins at `now`, in milliseconds.
    pub fn new(now: u64) -> Self {
        ConnectionStreamCounter {
            stream_count: AtomicU64::new(0),
            interval_start: AtomicU64::new(now),
        }
    }

    /// Begins a new interval at `now` if the current one is over, and
    /// returns the start of the interval that is current afterwards: one
    /// that is not over at `now`. Which start that is, for the start that
    /// the call finds, is what `current_interval_start` says.
    pub fn reset_throttling_params_if_needed(&self, now: u64) -> (current_start: u64)
        ensures
            !throttling_interval_over(current_start, now),
    {
        let interval_start: u64 = self.interval_start.load(Ordering::Relaxed);
        let current_start: u64 = current_interval_start(interval_start, now);
        if is_throttling_interval_over(interval_start, now) {
            self.interval_start.store(now, Ordering::Relaxed);
            self.stream_count.store(0, Ordering::Relaxed);
        }
        current_start
    }
}

/// What an entry holds of the live connection: the shared time of its last
/// activity, the guard that cancels its task, the guard that counts it as
/// open, the transport's connection and the shared counter of its streams.
pub struct ConnectionHandles {
    last_update: Arc<AtomicU64>,
    cancel: DropGuard,
    client_connection_tracker: ClientConnectionTracker,
    connection: Option<Connection>,
    stream_counter: Arc<ConnectionStreamCounter>,
}

impl ConnectionHandles {
    /// The time of the last activity on the connection, as shared with the
    /// task that serves it.
    pub closed spec fn activity(&self) -> Arc<AtomicU64> {
        self.last_update
    }

    /// The counter of streams that the connection shares with the other
    /// connections of its peer.
    pub closed spec fn stream_counter(&self) -> Arc<ConnectionStreamCounter> {
        self.stream_counter
    }
}

/// One live connection in the table.
///
/// `peer_type`, `port` and `stable_id` are fixed when the entry is made. The
/// time of the last activity is shared with the task that serves the
/// connection, which updates it.
pub struct ConnectionEntry {
    pub peer_type: ConnectionPeerType,
    pub port: u16,
    /// The transport's identifier of the connection; `None` where the entry
    /// holds no connection.
    pub stable_id: Option<usize>,
    pub handles: ConnectionHandles,
}

impl ConnectionEntry {
    /// The entry of a connection. The task of the connection is cancelled
    /// when the entry is dropped.
    pub fn new(
        cancel: CancellationToken,
        peer_type: ConnectionPeerType,
        last_update: Arc<AtomicU64>,
        port: u16,
        client_connection_tracker: ClientConnectionTracker,
        connection: Option<Connection>,
        stream_counter: Arc<ConnectionStreamCounter>,
    ) -> (entry: Self)
        ensures
            entry.peer_type == peer_type,
            entry.port == port,
            entry.stable_id is Some <==> connection is Some,
            entry.handles.activity() == last_update,
            entry.handles.stream_counter() == stream_counter,
    {
        let stable_id: Option<usize> = match &connection {
            Some(connection) => Some(connection_stable_id(connection)),
            None => None,
        };
        ConnectionEntry {
            peer_type,
            port,
            stable_id,
            handles: ConnectionHandles {
                last_update,
                cancel: cancel_on_drop(cancel),
                client_connection_tracker,
                connection,
                stream_counter,
            },
        }
    }

    /// The time of the last activity on the connection, as it stands now.
    pub(crate) fn last_update(&self) -> u64 {
        self.handles.last_update.load(Ordering::Relaxed)
    }

    pub fn stake(&self) -> (stake: u64)
        ensures
            stake == self.peer_type.stake_of(),
    {
        self.peer_type.stake()
    }

    /// The counter of streams that the entry shares with the other
    /// connections of its peer.
    pub(crate) fn stream_counter(&self) -> (counter: &Arc<ConnectionStreamCounter>)
        ensures
            *counter == self.handles.stream_counter(),
    {
        &self.handles.stream_counter
    }

    /// Closes the connection of an entry that leaves the table, with the
    /// code for a dropped entry, and gives the entry up.
    pub(crate) fn close(self) {
        match &self.handles.connection {
            Some(connection) => {
                close_with_code(connection, CONNECTION_CLOSE_CODE_DROPPED_ENTRY);
            },
            None => {},
        }
    }
}

} // verus!

//! Admission: what happens to a connection once its handshake is done.

use crate::connection_entry::close_with_code;
use crate::connection_entry::ClientConnectionTracker;
use crate::connection_entry::ConnectionEntry;
use crate::connection_entry::ConnectionStreamCounter;
use crate::connection_entry::CONNECTION_CLOSE_CODE_DISALLOWED;
use crate::connection_entry::CONNECTION_CLOSE_CODE_EXCEED_MAX_STREAM_COUNT;
use crate::connection_table::connections_of;
use crate::connection_table::count_entries;
use crate::connection_table::groups_with;
use crate::connection_table::is_entry_of;
use crate::connection_table::pruned_sample;
use crate::connection_table::pruned_to;
use crate::connection_table::samples_in_range;
use crate::table_laws::groups_wf;
use crate::table_laws::lemma_admission_adds_one;
use crate::table_laws::lemma_prune_oldest_evicts_least_active;
use crate::table_laws::lemma_prune_oldest_keeps_wf;
use crate::connection_table::ConnectionTable;
use crate::connection_table::Groups;
use crate::limits::compute_max_allowed_uni_streams;
use crate::limits::compute_recieve_window;
use crate::limits::max_allowed_uni_streams;
use crate::limits::receive_window;
use crate::packet::PacketAccumulator;
use crate::peer::classify_stake;
use crate::peer::classify_stake_spec;
use crate::peer::ConnectionPeerType;
use crate::peer::ConnectionTableKey;
use crate::peer::IpAddress;
use crate::peer::KeyCode;
use crate::peer::PeerPubkey;
use crate::sampling::percent_of;
use crate::stats::count;
use crate::stats::StreamerStats;
use crate::transport::connection_error_kind;
use crate::transport::ConnectionErrorKind;
use crate::transport::varint_from_u64;
use crate::transport::varint_value;
use crossbeam_channel::Sender;
use quinn::Connection;
use quinn::ConnectionError;
use quinn_proto::VarInt;
use quinn_proto::VarIntBoundsExceeded;
use std::sync::atomic::AtomicU64;
use std::sync::Arc;
use tokio_util::sync::CancellationToken;
use vstd::prelude::*;

verus! {

/// Total new connection counts per second. Heuristically taken from
/// the default staked and unstaked connection limits.
pub const TOTAL_CONNECTIONS_PER_SECOND: u64 = 2500;

/// The threshold of the size of the connection rate limiter map. When
/// the map size is above this, we will trigger a cleanup of older
/// entries used by past requests.
pub const CONNECTION_RATE_LIMITER_CLEANUP_SIZE_THRESHOLD: usize = 100_000;

/// The share of its ceiling, in percent, to which the table of unstaked
/// peers is pruned once it has reached the ceiling.
pub const PRUNE_TABLE_TO_PERCENTAGE: u8 = 90;

/// The number of groups that are sampled when a staked peer finds the table
/// of staked peers full.
pub const PRUNE_RANDOM_SAMPLE_SIZE: usize = 2;

/// Why a connection was not admitted.
#[derive(Clone, Copy, Debug, PartialEq, Eq, Structural)]
pub enum ConnectionHandlerError {
    ConnectionAddError,
    MaxStreamError,
}

/// The ceiling on open connections in all stages: the ceilings of both
/// tables together, and a quarter more.
pub open spec fn max_concurrent_connections(
    max_staked_connections: usize,
    max_unstaked_connections: usize,
) -> int {
    (max_staked_connections + max_unstaked_connections) + (max_staked_connections
        + max_unstaked_connections) / 4
}

pub fn compute_max_concurrent_connections(
    max_staked_connections: usize,
    max_unstaked_connections: usize,
) -> (ceiling: usize)
    requires
        max_concurrent_connections(max_staked_connections, max_unstaked_connections)
            <= usize::MAX,
    ensures
        ceiling == max_concurrent_connections(max_staked_connections, max_unstaked_connections),
{
    let concurrent_connections: usize = max_staked_connections + max_unstaked_connections;
    concurrent_connections + concurrent_connections / 4
}

/// Whether the limiter of connections by address is due for a cleanup.
pub fn rate_limiter_needs_cleanup(len: usize) -> (due: bool)
    ensures
        due == (len > CONNECTION_RATE_LIMITER_CLEANUP_SIZE_THRESHOLD),
{
    len > CONNECTION_RATE_LIMITER_CLEANUP_SIZE_THRESHOLD
}

/// What the server knows of a peer when it admits its connection.
pub struct NewConnectionHandlerParams {
    pub packet_sender: Sender<PacketAccumulator>,
    pub remote_pubkey: Option<PeerPubkey>,
    pub peer_type: ConnectionPeerType,
    pub total_stake: u64,
    pub max_connections_per_peer: usize,
    pub stats: Arc<StreamerStats>,
    pub max_stake: u64,
    pub min_stake: u64,
}

/// What the stake snapshot holds of a peer: its identity, its stake, and
/// the total, the most and the least stake of all peers.
pub struct PeerStake {
    pub pubkey: PeerPubkey,
    pub stake: u64,
    pub total_stake: u64,
    pub max_stake: u64,
    pub min_stake: u64,
}

impl NewConnectionHandlerParams {
    /// The parameters of a peer that the stake snapshot does not know.
    pub fn new_unstaked(
        packet_sender: Sender<PacketAccumulator>,
        max_connections_per_peer: usize,
        stats: Arc<StreamerStats>,
    ) -> (params: NewConnectionHandlerParams)
        ensures
            params.remote_pubkey is None,
            params.peer_type == ConnectionPeerType::Unstaked,
            params.total_stake == 0,
            params.max_connections_per_peer == max_connections_per_peer,
            params.max_stake == 0,
            params.min_stake == 0,
    {
        NewConnectionHandlerParams {
            packet_sender,
            remote_pubkey: None,
            peer_type: ConnectionPeerType::Unstaked,
            total_stake: 0,
            max_connections_per_peer,
            stats,
            max_stake: 0,
            min_stake: 0,
        }
    }

    /// The parameters of a peer from what the stake snapshot holds of it,
    /// if anything. A peer in the snapshot keeps its identity; its class
    /// goes by its share of the stake.
    pub fn new(
        packet_sender: Sender<PacketAccumulator>,
        peer_stake: Option<PeerStake>,
        max_connections_per_peer: usize,
        max_streams_per_ms: u64,
        stats: Arc<StreamerStats>,
    ) -> (params: NewConnectionHandlerParams)
        ensures
            params.max_connections_per_peer == max_connections_per_peer,
            match peer_stake {
                Some(known) => {
                    &&& params.remote_pubkey == Some(known.pubkey)
                    &&& params.peer_type == classify_stake_spec(
                        known.stake,
                        known.total_stake,
                        max_streams_per_ms,
                    )
                    &&& params.total_stake == known.total_stake
                    &&& params.max_stake == known.max_stake
                    &&& params.min_stake == known.min_stake
                },
                None => {
                    &&& params.remote_pubkey is None
                    &&& params.peer_type == ConnectionPeerType::Unstaked
                    &&& params.total_stake == 0
                    &&& params.max_stake == 0
                    &&& params.min_stake == 0
                },
            },
    {
        match peer_stake {
            Some(known) => {
                // If it is a staked connection with ultra low stake ratio, treat it as unstaked.
                let peer_type: ConnectionPeerType = classify_stake(
                    known.stake,
                    known.total_stake,
                    max_streams_per_ms,
                );
                NewConnectionHandlerParams {
                    packet_sender,
                    remote_pubkey: Some(known.pubkey),
                    peer_type,
                    total_stake: known.total_stake,
                    max_connections_per_peer,
                    stats,
                    max_stake: known.max_stake,
                    min_stake: known.min_stake,
                }
            },
            None => Self::new_unstaked(packet_sender, max_connections_per_peer, stats),
        }
    }
}

/// What an admitted connection is served with.
pub struct NewConnection {
    /// The time of the last activity, shared with the entry in the table.
    pub last_update: Arc<AtomicU64>,
    /// Cancelled when the entry leaves the table.
    pub cancel: CancellationToken,
    /// The stream counter shared by the connections of the peer.
    pub stream_counter: Arc<ConnectionStreamCounter>,
    /// The number of streams that the peer may have open at once.
    pub max_uni_streams: VarInt,
    /// The receive window of the connection.
    pub receive_window: Result<VarInt, VarIntBoundsExceeded>,
}

/// How a table stands after an attempt to admit a connection under `key`:
/// with the connection at the end of its group where the group had room,
/// and as before where it had not.
pub open spec fn admitted_into(
    before: Groups,
    after: Groups,
    key: KeyCode,
    peer_type: ConnectionPeerType,
    port: u16,
    has_connection: bool,
    max_connections_per_peer: usize,
    admitted: bool,
) -> bool {
    if connections_of(before, key).len() < max_connections_per_peer {
        admitted && exists|entry: ConnectionEntry|
            is_entry_of(entry, peer_type, port, has_connection) && after == #[trigger] groups_with(
                before,
                key,
                entry,
            )
    } else {
        !admitted && after == before
    }
}

/// Admits a connection to a table: works out the streams and the receive
/// window that the peer is allowed, and adds the connection under the key
/// of the peer, unless that key is at its cap.
pub fn handle_and_cache_new_connection(
    client_connection_tracker: ClientConnectionTracker,
    connection: Option<Connection>,
    connection_table: &mut ConnectionTable,
    remote_ip: IpAddress,
    remote_port: u16,
    params: &NewConnectionHandlerParams,
    now: u64,
) -> (added: Result<NewConnection, ConnectionHandlerError>)
    requires
        old(connection_table).wf(),
        old(connection_table).total() < usize::MAX,
    ensures
        final(connection_table).wf(),
        admitted_into(
            old(connection_table)@,
            final(connection_table)@,
            ConnectionTableKey::new_spec(remote_ip, params.remote_pubkey).code_spec(),
            params.peer_type,
            remote_port,
            connection is Some,
            params.max_connections_per_peer,
            added is Ok,
        ),
        added is Ok ==> final(connection_table).total() == old(connection_table).total() + 1,
        added is Err ==> final(connection_table).total() == old(connection_table).total(),
        added is Err ==> added == Err::<NewConnection, ConnectionHandlerError>(
            ConnectionHandlerError::ConnectionAddError,
        ),
        added is Ok ==> varint_value(added->Ok_0.max_uni_streams) == max_allowed_uni_streams(
            params.peer_type,
            params.total_stake,
        ),
        added is Ok ==> added->Ok_0.receive_window is Ok && varint_value(
            added->Ok_0.receive_window->Ok_0,
        ) == receive_window(params.max_stake, params.min_stake, params.peer_type),
{
    let streams: usize = compute_max_allowed_uni_streams(params.peer_type, params.total_stake);
    match varint_from_u64(streams as u64) {
        Ok(max_uni_streams) => {
            let receive_window: Result<VarInt, VarIntBoundsExceeded> = compute_recieve_window(
                params.max_stake,
                params.min_stake,
                params.peer_type,
            );
            match connection_table.try_add_connection(
                ConnectionTableKey::new(remote_ip, params.remote_pubkey),
                remote_port,
                client_connection_tracker,
                connection,
                params.peer_type,
                now,
                params.max_connections_per_peer,
            ) {
                Some((last_update, cancel, stream_counter)) => Ok(
                    NewConnection {
                        last_update,
                        cancel,
                        stream_counter,
                        max_uni_streams,
                        receive_window,
                    },
                ),
                None => {
                    count(&params.stats.connection_add_failed, 1);
                    Err(ConnectionHandlerError::ConnectionAddError)
                },
            }
        },
        Err(_) => {
            match &connection {
                Some(connection) => {
                    close_with_code(connection, CONNECTION_CLOSE_CODE_EXCEED_MAX_STREAM_COUNT);
                },
                None => {},
            }
            count(&params.stats.connection_add_failed_invalid_stream_count, 1);
            Err(ConnectionHandlerError::MaxStreamError)
        },
    }
}

/// The number of connections to which the table of unstaked peers is pruned
/// once it has reached a ceiling of `max_unstaked_connections`.
pub open spec fn unstaked_prune_target(max_unstaked_connections: usize) -> nat {
    ((max_unstaked_connections * PRUNE_TABLE_TO_PERCENTAGE) / 100) as nat
}

/// The table of unstaked peers after `prune_unstaked_connection_table`: as
/// it was while it is under its ceiling, and pruned to the target once it
/// has reached it. `activity` is the time of the last activity of each
/// group.
pub open spec fn pruned_unstaked(groups: Groups, activity: Seq<u64>, max_unstaked_connections: usize)
    -> Groups {
    if count_entries(groups) >= max_unstaked_connections {
        pruned_to(groups, activity, unstaked_prune_target(max_unstaked_connections)).0
    } else {
        groups
    }
}

/// A table of unstaked peers that is within its ceiling stays within it
/// through every admission. Under the ceiling nothing is evicted; at the
/// ceiling the table is first pruned, the least active peers first, to
/// ninety percent of the ceiling, and only then is the connection added.
/// This holds for every ceiling over zero.
pub proof fn lemma_unstaked_table_stays_within_ceiling(
    groups: Groups,
    activity: Seq<u64>,
    max_unstaked_connections: usize,
    key: KeyCode,
    entry: ConnectionEntry,
)
    requires
        groups_wf(groups),
        activity.len() == groups.len(),
        max_unstaked_connections > 0,
        count_entries(groups) <= max_unstaked_connections,
    ensures
        groups_wf(pruned_unstaked(groups, activity, max_unstaked_connections)),
        count_entries(groups) < max_unstaked_connections ==> pruned_unstaked(
            groups,
            activity,
            max_unstaked_connections,
        ) == groups,
        count_entries(groups) >= max_unstaked_connections ==> count_entries(
            pruned_unstaked(groups, activity, max_unstaked_connections),
        ) <= unstaked_prune_target(max_unstaked_connections),
        unstaked_prune_target(max_unstaked_connections) < max_unstaked_connections,
        count_entries(pruned_unstaked(groups, activity, max_unstaked_connections))
            < max_unstaked_connections,
        count_entries(
            groups_with(
                pruned_unstaked(groups, activity, max_unstaked_connections),
                key,
                entry,
            ),
        ) <= max_unstaked_connections,
{
    let target = unstaked_prune_target(max_unstaked_connections);
    assert(target < max_unstaked_connections) by (nonlinear_arith)
        requires
            max_unstaked_connections > 0,
            target == (max_unstaked_connections * 90) / 100,
    ;
    lemma_prune_oldest_keeps_wf(groups, activity, target);
    lemma_prune_oldest_evicts_least_active(groups, activity, target);
    lemma_admission_adds_one(
        pruned_unstaked(groups, activity, max_unstaked_connections),
        key,
        entry,
    );
}

/// Makes room in the table of unstaked peers: once the table has reached
/// its ceiling, the least active peers are evicted until it is down to
/// ninety percent of the ceiling.
pub fn prune_unstaked_connection_table(
    unstaked_connection_table: &mut ConnectionTable,
    max_unstaked_connections: usize,
    stats: &StreamerStats,
)
    requires
        old(unstaked_connection_table).wf(),
        max_unstaked_connections * PRUNE_TABLE_TO_PERCENTAGE <= usize::MAX,
    ensures
        final(unstaked_connection_table).wf(),
        final(unstaked_connection_table).total() <= old(unstaked_connection_table).total(),
        old(unstaked_connection_table).total() >= max_unstaked_connections ==> final(unstaked_connection_table).total() <= unstaked_prune_target(max_unstaked_connections),
        exists|activity: Seq<u64>|
            activity.len() == old(unstaked_connection_table)@.len() && final(unstaked_connection_table)@ == #[trigger] pruned_unstaked(
                old(unstaked_connection_table)@,
                activity,
                max_unstaked_connections,
            ),
{
    let ghost groups = unstaked_connection_table@;
    if unstaked_connection_table.total_size() >= max_unstaked_connections {
        let max_connections: usize = percent_of(PRUNE_TABLE_TO_PERCENTAGE, max_unstaked_connections);
        let num_pruned: usize = unstaked_connection_table.prune_oldest(max_connections);
        count(&stats.num_evictions, num_pruned);
        proof {
            let activity = choose|activity: Seq<u64>|
                activity.len() == groups.len() && unstaked_connection_table@ == (
                #[trigger] pruned_to(groups, activity, max_connections as nat)).0;
            assert(unstaked_connection_table@ == pruned_unstaked(
                groups,
                activity,
                max_unstaked_connections,
            ));
        }
    } else {
        proof {
            let activity = Seq::new(groups.len(), |i: int| 0u64);
            assert(unstaked_connection_table@ == pruned_unstaked(
                groups,
                activity,
                max_unstaked_connections,
            ));
        }
    }
}

/// How the table of unstaked peers stands after an attempt to admit a
/// connection to it: with a ceiling of zero nothing is admitted; otherwise
/// room is made first, and the connection is added unless its key is at its
/// cap.
pub open spec fn unstaked_admission(
    before: Groups,
    after: Groups,
    key: KeyCode,
    peer_type: ConnectionPeerType,
    port: u16,
    has_connection: bool,
    max_connections_per_peer: usize,
    max_unstaked_connections: usize,
    admitted: bool,
) -> bool {
    if max_unstaked_connections == 0 {
        !admitted && after == before
    } else {
        exists|activity: Seq<u64>|
            activity.len() == before.len() && admitted_into(
                #[trigger] pruned_unstaked(before, activity, max_unstaked_connections),
                after,
                key,
                peer_type,
                port,
                has_connection,
                max_connections_per_peer,
                admitted,
            )
    }
}

/// Admits a connection to the table of unstaked peers, after making room
/// for it. Where the table may hold no connection at all, the connection is
/// closed with the code for a disallowed one.
pub fn prune_unstaked_connections_and_add_new_connection(
    client_connection_tracker: ClientConnectionTracker,
    connection: Option<Connection>,
    connection_table: &mut ConnectionTable,
    max_connections: usize,
    remote_ip: IpAddress,
    remote_port: u16,
    params: &NewConnectionHandlerParams,
    now: u64,
) -> (added: Result<NewConnection, ConnectionHandlerError>)
    requires
        old(connection_table).wf(),
        max_connections * PRUNE_TABLE_TO_PERCENTAGE <= usize::MAX,
    ensures
        final(connection_table).wf(),
        unstaked_admission(
            old(connection_table)@,
            final(connection_table)@,
            ConnectionTableKey::new_spec(remote_ip, params.remote_pubkey).code_spec(),
            params.peer_type,
            remote_port,
            connection is Some,
            params.max_connections_per_peer,
            max_connections,
            added is Ok,
        ),
        added is Err ==> added == Err::<NewConnection, ConnectionHandlerError>(
            ConnectionHandlerError::ConnectionAddError,
        ),
        added is Ok ==> varint_value(added->Ok_0.max_uni_streams) == max_allowed_uni_streams(
            params.peer_type,
            params.total_stake,
        ),
        added is Ok ==> added->Ok_0.receive_window is Ok && varint_value(
            added->Ok_0.receive_window->Ok_0,
        ) == receive_window(params.max_stake, params.min_stake, params.peer_type),
{
    if max_connections > 0 {
        let ghost groups = connection_table@;
        prune_unstaked_connection_table(connection_table, max_connections, &params.stats);
        let ghost pruned = connection_table@;
        proof {
            assert(unstaked_prune_target(max_connections) < max_connections) by (nonlinear_arith)
                requires
                    max_connections > 0,
                    unstaked_prune_target(max_connections) == (max_connections * 90) / 100,
            ;
        }
        let added = handle_and_cache_new_connection(
            client_connection_tracker,
            connection,
            connection_table,
            remote_ip,
            remote_port,
            params,
            now,
        );
        proof {
            let activity = choose|activity: Seq<u64>|
                activity.len() == groups.len() && pruned == #[trigger] pruned_unstaked(
                    groups,
                    activity,
                    max_connections,
                );
            assert(admitted_into(
                pruned_unstaked(groups, activity, max_connections),
                connection_table@,
                ConnectionTableKey::new_spec(remote_ip, params.remote_pubkey).code_spec(),
                params.peer_type,
                remote_port,
                connection is Some,
                params.max_connections_per_peer,
                added is Ok,
            ));
        }
        added
    } else {
        match &connection {
            Some(connection) => {
                close_with_code(connection, CONNECTION_CLOSE_CODE_DISALLOWED);
            },
            None => {},
        }
        Err(ConnectionHandlerError::ConnectionAddError)
    }
}

/// The table of staked peers after the attempt to make room in it for a
/// peer with `stake`: as it was while it is under its ceiling; otherwise
/// with the sampled group of least stake evicted, if that stake is below
/// `stake`.
pub open spec fn pruned_staked(
    groups: Groups,
    samples: Seq<usize>,
    max_staked_connections: usize,
    stake: u64,
) -> Groups {
    if count_entries(groups) >= max_staked_connections {
        pruned_sample(groups, samples, stake)
    } else {
        groups
    }
}

/// How the table of staked peers stands after an attempt to admit a staked
/// connection to it. `outcome` is `None` where the table stayed full, so
/// that the connection is left for the table of unstaked peers; otherwise
/// it says whether the connection was added.
pub open spec fn staked_admission(
    before: Groups,
    after: Groups,
    key: KeyCode,
    peer_type: ConnectionPeerType,
    port: u16,
    has_connection: bool,
    max_connections_per_peer: usize,
    max_staked_connections: usize,
    outcome: Option<bool>,
) -> bool {
    exists|samples: Seq<usize>|
        samples_in_range(before, samples) && {
            let pruned = #[trigger] pruned_staked(
                before,
                samples,
                max_staked_connections,
                peer_type.stake_of(),
            );
            if count_entries(pruned) < max_staked_connections {
                outcome is Some && admitted_into(
                    pruned,
                    after,
                    key,
                    peer_type,
                    port,
                    has_connection,
                    max_connections_per_peer,
                    outcome->Some_0,
                )
            } else {
                outcome is None && after == pruned
            }
        }
}

/// What has become of a staked connection at the table of staked peers.
pub enum StakedAdmission {
    /// The table had room, or room was made: the connection was added, or
    /// refused because its key is at its cap.
    Handled(Result<NewConnection, ConnectionHandlerError>),
    /// The table is full and nothing could be evicted: the connection is
    /// handed back, to be tried at the table of unstaked peers.
    TableFull(ClientConnectionTracker, Option<Connection>),
}

impl StakedAdmission {
    /// `None` where the table stayed full; otherwise whether the connection
    /// was added.
    pub open spec fn outcome(self) -> Option<bool> {
        match self {
            StakedAdmission::Handled(added) => Some(added is Ok),
            StakedAdmission::TableFull(_, _) => None,
        }
    }
}

/// Admits a staked connection to the table of staked peers. Where the table
/// has reached its ceiling, groups are sampled at random, and the one with
/// the least stake is evicted if the new peer has more.
pub fn add_staked_connection(
    client_connection_tracker: ClientConnectionTracker,
    connection: Option<Connection>,
    connection_table: &mut ConnectionTable,
    max_staked_connections: usize,
    remote_ip: IpAddress,
    remote_port: u16,
    params: &NewConnectionHandlerParams,
    now: u64,
) -> (admission: StakedAdmission)
    requires
        old(connection_table).wf(),
    ensures
        final(connection_table).wf(),
        staked_admission(
            old(connection_table)@,
            final(connection_table)@,
            ConnectionTableKey::new_spec(remote_ip, params.remote_pubkey).code_spec(),
            params.peer_type,
            remote_port,
            connection is Some,
            params.max_connections_per_peer,
            max_staked_connections,
            admission.outcome(),
        ),
        admission matches StakedAdmission::Handled(Ok(new_connection)) ==> varint_value(
            new_connection.max_uni_streams,
        ) == max_allowed_uni_streams(params.peer_type, params.total_stake)
            && new_connection.receive_window is Ok && varint_value(
            new_connection.receive_window->Ok_0,
        ) == receive_window(params.max_stake, params.min_stake, params.peer_type),
        admission matches StakedAdmission::TableFull(_, handed_back) ==> (handed_back is Some
            <==> connection is Some),
{
    let ghost groups = connection_table@;
    let ghost mut samples: Seq<usize> = Seq::empty();
    if connection_table.total_size() >= max_staked_connections {
        let num_pruned: usize = connection_table.prune_random(
            PRUNE_RANDOM_SAMPLE_SIZE,
            params.peer_type.stake(),
        );
        count(&params.stats.num_evictions, num_pruned);
        proof {
            samples = choose|samples: Seq<usize>|
                samples_in_range(groups, samples) && connection_table@ == #[trigger] pruned_sample(
                    groups,
                    samples,
                    params.peer_type.stake_of(),
                );
        }
    } else {
        proof {
            assert(samples_in_range(groups, samples));
        }
    }
    let ghost pruned = connection_table@;
    proof {
        assert(pruned == pruned_staked(
            groups,
            samples,
            max_staked_connections,
            params.peer_type.stake_of(),
        ));
    }
    if connection_table.total_size() < max_staked_connections {
        let added = handle_and_cache_new_connection(
            client_connection_tracker,
            connection,
            connection_table,
            remote_ip,
            remote_port,
            params,
            now,
        );
        StakedAdmission::Handled(added)
    } else {
        StakedAdmission::TableFull(client_connection_tracker, connection)
    }
}

/// One of the two tables of the server.
#[derive(Clone, Copy, Debug, PartialEq, Eq, Structural)]
pub enum ConnectionTableKind {
    Staked,
    Unstaked,
}

/// How both tables stand after `setup_connection`.
///
/// An unstaked peer is tried at the table of unstaked peers alone. A staked
/// peer is tried at the table of staked peers first, and, where that table
/// is full and stays so, at the table of unstaked peers.
pub open spec fn connection_setup(
    staked_before: Groups,
    staked_after: Groups,
    unstaked_before: Groups,
    unstaked_after: Groups,
    key: KeyCode,
    peer_type: ConnectionPeerType,
    port: u16,
    has_connection: bool,
    max_connections_per_peer: usize,
    max_staked_connections: usize,
    max_unstaked_connections: usize,
    admitted_to: Option<ConnectionTableKind>,
) -> bool {
    match peer_type {
        ConnectionPeerType::Unstaked => staked_after == staked_before && admitted_to != Some(
            ConnectionTableKind::Staked,
        ) && unstaked_admission(
            unstaked_before,
            unstaked_after,
            key,
            peer_type,
            port,
            has_connection,
            max_connections_per_peer,
            max_unstaked_connections,
            admitted_to is Some,
        ),
        ConnectionPeerType::Staked(_) => exists|outcome: Option<bool>|
            #[trigger] staked_admission(
                staked_before,
                staked_after,
                key,
                peer_type,
                port,
                has_connection,
                max_connections_per_peer,
                max_staked_connections,
                outcome,
            ) && match outcome {
                Some(added) => unstaked_after == unstaked_before && admitted_to == if added {
                    Some(ConnectionTableKind::Staked)
                } else {
                    None::<ConnectionTableKind>
                },
                None => admitted_to != Some(ConnectionTableKind::Staked) && unstaked_admission(
                    unstaked_before,
                    unstaked_after,
                    key,
                    peer_type,
                    port,
                    has_connection,
                    max_connections_per_peer,
                    max_unstaked_connections,
                    admitted_to is Some,
                ),
            },
    }
}

/// Admits a connection whose handshake is done and which the rate limits
/// have let pass: classifies the peer by what the stake snapshot holds of
/// it, and adds the connection to the table of its class, with the
/// evictions that this takes.
///
/// Returns the parameters of the peer and, where the connection was
/// admitted, what it is served with and the table that holds it.
pub fn setup_connection(
    connection: Option<Connection>,
    remote_ip: IpAddress,
    remote_port: u16,
    peer_stake: Option<PeerStake>,
    client_connection_tracker: ClientConnectionTracker,
    unstaked_connection_table: &mut ConnectionTable,
    staked_connection_table: &mut ConnectionTable,
    packet_sender: Sender<PacketAccumulator>,
    max_connections_per_peer: usize,
    max_staked_connections: usize,
    max_unstaked_connections: usize,
    max_streams_per_ms: u64,
    stats: Arc<StreamerStats>,
    now: u64,
) -> (setup: (NewConnectionHandlerParams, Option<(NewConnection, ConnectionTableKind)>))
    requires
        old(unstaked_connection_table).wf(),
        old(staked_connection_table).wf(),
        max_unstaked_connections * PRUNE_TABLE_TO_PERCENTAGE <= usize::MAX,
    ensures
        final(unstaked_connection_table).wf(),
        final(staked_connection_table).wf(),
        setup.0.max_connections_per_peer == max_connections_per_peer,
        match peer_stake {
            Some(known) => {
                &&& setup.0.remote_pubkey == Some(known.pubkey)
                &&& setup.0.peer_type == classify_stake_spec(
                    known.stake,
                    known.total_stake,
                    max_streams_per_ms,
                )
                &&& setup.0.total_stake == known.total_stake
                &&& setup.0.max_stake == known.max_stake
                &&& setup.0.min_stake == known.min_stake
            },
            None => {
                &&& setup.0.remote_pubkey is None
                &&& setup.0.peer_type == ConnectionPeerType::Unstaked
                &&& setup.0.total_stake == 0
                &&& setup.0.max_stake == 0
                &&& setup.0.min_stake == 0
            },
        },
        connection_setup(
            old(staked_connection_table)@,
            final(staked_connection_table)@,
            old(unstaked_connection_table)@,
            final(unstaked_connection_table)@,
            ConnectionTableKey::new_spec(remote_ip, setup.0.remote_pubkey).code_spec(),
            setup.0.peer_type,
            remote_port,
            connection is Some,
            max_connections_per_peer,
            max_staked_connections,
            max_unstaked_connections,
            match setup.1 {
                Some(admitted) => Some(admitted.1),
                None => None,
            },
        ),
        setup.1 is Some ==> varint_value(setup.1->Some_0.0.max_uni_streams)
            == max_allowed_uni_streams(setup.0.peer_type, setup.0.total_stake),
        setup.1 is Some ==> setup.1->Some_0.0.receive_window is Ok && varint_value(
            setup.1->Some_0.0.receive_window->Ok_0,
        ) == receive_window(setup.0.max_stake, setup.0.min_stake, setup.0.peer_type),
{
    let params: NewConnectionHandlerParams = NewConnectionHandlerParams::new(
        packet_sender,
        peer_stake,
        max_connections_per_peer,
        max_streams_per_ms,
        stats,
    );
    let ghost key = ConnectionTableKey::new_spec(remote_ip, params.remote_pubkey).code_spec();
    let ghost staked_before = staked_connection_table@;
    let ghost unstaked_before = unstaked_connection_table@;
    match params.peer_type {
        ConnectionPeerType::Staked(_) => {
            match add_staked_connection(
                client_connection_tracker,
                connection,
                staked_connection_table,
                max_staked_connections,
                remote_ip,
                remote_port,
                &params,
                now,
            ) {
                StakedAdmission::Handled(added) => {
                    proof {
                        assert(staked_admission(
                            staked_before,
                            staked_connection_table@,
                            key,
                            params.peer_type,
                            remote_port,
                            connection is Some,
                            max_connections_per_peer,
                            max_staked_connections,
                            Some(added is Ok),
                        ));
                    }
                    match added {
                        Ok(new_connection) => {
                            count(&params.stats.connection_added_from_staked_peer, 1);
                            (params, Some((new_connection, ConnectionTableKind::Staked)))
                        },
                        Err(_) => (params, None),
                    }
                },
                StakedAdmission::TableFull(client_connection_tracker, handed_back) => {
                    // If we couldn't prune a connection in the staked connection table, let's
                    // put this connection in the unstaked connection table. If needed, prune a
                    // connection from the unstaked connection table.
                    proof {
                        assert(staked_admission(
                            staked_before,
                            staked_connection_table@,
                            key,
                            params.peer_type,
                            remote_port,
                            connection is Some,
                            max_connections_per_peer,
                            max_staked_connections,
                            None,
                        ));
                    }
                    match prune_unstaked_connections_and_add_new_connection(
                        client_connection_tracker,
                        handed_back,
                        unstaked_connection_table,
                        max_unstaked_connections,
                        remote_ip,
                        remote_port,
                        &params,
                        now,
                    ) {
                        Ok(new_connection) => {
                            count(&params.stats.connection_added_from_staked_peer, 1);
                            (params, Some((new_connection, ConnectionTableKind::Unstaked)))
                        },
                        Err(_) => {
                            count(&params.stats.connection_add_failed_on_pruning, 1);
                            count(&params.stats.connection_add_failed_staked_node, 1);
                            (params, None)
                        },
                    }
                },
            }
        },
        ConnectionPeerType::Unstaked => {
            match prune_unstaked_connections_and_add_new_connection(
                client_connection_tracker,
                connection,
                unstaked_connection_table,
                max_unstaked_connections,
                remote_ip,
                remote_port,
                &params,
                now,
            ) {
                Ok(new_connection) => {
                    count(&params.stats.connection_added_from_unstaked_peer, 1);
                    (params, Some((new_connection, ConnectionTableKind::Unstaked)))
                },
                Err(_) => {
                    count(&params.stats.connection_add_failed_unstaked_node, 1);
                    (params, None)
                },
            }
        },
    }
}

/// What the rate limits say of a connection whose handshake is done.
#[derive(Clone, Copy, Debug, PartialEq, Eq, Structural)]
pub enum RateLimited {
    /// The limit of its address is used up.
    PerAddress,
    /// The limit of all connections together is used up.
    Overall,
    /// Within both limits.
    No,
}

/// What the answers of the two limiters come to: the limit of the address
/// comes first.
pub open spec fn rate_limited(address_allowed: bool, overall_allowed: bool) -> RateLimited {
    if !address_allowed {
        RateLimited::PerAddress
    } else if !overall_allowed {
        RateLimited::Overall
    } else {
        RateLimited::No
    }
}

/// Takes the answers of the two limiters, counts the connection, and says
/// whether it passes. A connection that does not pass is to be closed with
/// the code for a disallowed one.
pub fn check_rate_limits(stats: &StreamerStats, address_allowed: bool, overall_allowed: bool) -> (limited:
    RateLimited)
    ensures
        limited == rate_limited(address_allowed, overall_allowed),
{
    if !address_allowed {
        count(&stats.connection_rate_limited_per_ipaddr, 1);
        return RateLimited::PerAddress;
    }
    count(&stats.total_new_connections, 1);
    if !overall_allowed {
        count(&stats.connection_rate_limited_across_all, 1);
        return RateLimited::Overall;
    }
    RateLimited::No
}

/// Counts a failed `ConnectionErrorKind`, each kind on its own counter.
pub fn record_connection_error(kind: ConnectionErrorKind, stats: &StreamerStats) {
    count(&stats.connection_setup_error, 1);
    match kind {
        ConnectionErrorKind::TimedOut => {
            count(&stats.connection_setup_error_timed_out, 1);
        },
        ConnectionErrorKind::ConnectionClosed => {
            count(&stats.connection_setup_error_closed, 1);
        },
        ConnectionErrorKind::TransportError => {
            count(&stats.connection_setup_error_transport, 1);
        },
        ConnectionErrorKind::ApplicationClosed => {
            count(&stats.connection_setup_error_app_closed, 1);
        },
        ConnectionErrorKind::Reset => {
            count(&stats.connection_setup_error_reset, 1);
        },
        ConnectionErrorKind::LocallyClosed => {
            count(&stats.connection_setup_error_locally_closed, 1);
        },
        ConnectionErrorKind::Other => {},
    }
}

/// Counts a handshake that has failed, by the kind of the failure.
pub fn handle_connection_error(e: ConnectionError, stats: &StreamerStats) {
    record_connection_error(connection_error_kind(&e), stats);
}

} // verus!

use quic_streamer::admission::prune_unstaked_connection_table;
use quic_streamer::builtins::BuiltinMigrationFeatureIndex;
use quic_streamer::connection_entry::connection_close_reason;
use quic_streamer::connection_entry::current_interval_start;
use quic_streamer::connection_entry::ClientConnectionTracker;
use quic_streamer::connection_table::find_oldest;
use quic_streamer::connection_table::oldest_stamp;
use quic_streamer::connection_table::ConnectionTable;
use quic_streamer::peer::ConnectionPeerType;
use quic_streamer::peer::ConnectionTableKey;
use quic_streamer::peer::IpAddress;
use quic_streamer::peer::PeerPubkey;
use quic_streamer::stats::StreamerStats;
use std::sync::atomic::Ordering;
use std::sync::Arc;

fn ip(first_octet: u8) -> IpAddress {
    IpAddress::V4(u32::from_be_bytes([first_octet, 0, 0, 0]))
}

fn unique_pubkey(n: u64) -> PeerPubkey {
    PeerPubkey { high: 0x5eed_0000_0000_0000_0000_0000_0000_0000, low: n as u128 + 1 }
}

fn tracker(stats: &Arc<StreamerStats>) -> ClientConnectionTracker {
    ClientConnectionTracker::new(stats.clone(), 1000).unwrap()
}

#[test]
fn test_prune_table_with_ip() {
    let mut table = ConnectionTable::new();
    let mut num_entries = 5;
    let max_connections_per_peer = 10;
    let sockets: Vec<(IpAddress, u16)> = (0..num_entries).map(|i| (ip(i), 0)).collect();
    let stats = Arc::new(StreamerStats::new());
    for (i, socket) in sockets.iter().enumerate() {
        table
            .try_add_connection(
                ConnectionTableKey::IP(socket.0),
                socket.1,
                tracker(&stats),
                None,
                ConnectionPeerType::Unstaked,
                i as u64,
                max_connections_per_peer,
            )
            .unwrap();
    }
    num_entries += 1;
    table
        .try_add_connection(
            ConnectionTableKey::IP(sockets[0].0),
            sockets[0].1,
            tracker(&stats),
            None,
            ConnectionPeerType::Unstaked,
            5,
            max_connections_per_peer,
        )
        .unwrap();

    let new_size = 3;
    let pruned = table.prune_oldest(new_size);
    assert_eq!(pruned, num_entries as usize - new_size);
    for x in table.last_updates() {
        assert!((x + 1) >= (num_entries as u64 - new_size as u64));
    }
    assert_eq!(table.len(), new_size);
    assert_eq!(table.total_size(), new_size);
    for socket in sockets.iter().take(num_entries as usize).skip(new_size - 1) {
        table.remove_connection(ConnectionTableKey::IP(socket.0), socket.1, 0);
    }
    assert_eq!(table.total_size(), 0);
    assert_eq!(stats.open_connections.load(Ordering::Relaxed), 0);
}

#[test]
fn test_prune_table_with_unique_pubkeys() {
    let mut table = ConnectionTable::new();

    // We should be able to add more entries than max_connections_per_peer, since each entry is
    // from a different peer pubkey.
    let num_entries = 15;
    let max_connections_per_peer = 10;
    let stats = Arc::new(StreamerStats::new());

    let pubkeys: Vec<PeerPubkey> = (0..num_entries).map(unique_pubkey).collect();
    for (i, pubkey) in pubkeys.iter().enumerate() {
        table
            .try_add_connection(
                ConnectionTableKey::Pubkey(*pubkey),
                0,
                tracker(&stats),
                None,
                ConnectionPeerType::Unstaked,
                i as u64,
                max_connections_per_peer,
            )
            .unwrap();
    }

    let new_size = 3;
    let pruned = table.prune_oldest(new_size);
    assert_eq!(pruned, num_entries as usize - new_size);
    assert_eq!(table.len(), new_size);
    assert_eq!(table.total_size(), new_size);
    for pubkey in pubkeys.iter().take(num_entries as usize).skip(new_size - 1) {
        table.remove_connection(ConnectionTableKey::Pubkey(*pubkey), 0, 0);
    }
    assert_eq!(table.total_size(), 0);
    assert_eq!(stats.open_connections.load(Ordering::Relaxed), 0);
}

#[test]
fn test_prune_table_with_non_unique_pubkeys() {
    let mut table = ConnectionTable::new();

    let max_connections_per_peer = 10;
    let pubkey = unique_pubkey(0);
    let stats: Arc<StreamerStats> = Arc::new(StreamerStats::new());

    (0..max_connections_per_peer).for_each(|i| {
        table
            .try_add_connection(
                ConnectionTableKey::Pubkey(pubkey),
                0,
                tracker(&stats),
                None,
                ConnectionPeerType::Unstaked,
                i as u64,
                max_connections_per_peer,
            )
            .unwrap();
    });

    // We should NOT be able to add more entries than max_connections_per_peer, since we are
    // using the same peer pubkey.
    assert!(table
        .try_add_connection(
            ConnectionTableKey::Pubkey(pubkey),
            0,
            tracker(&stats),
            None,
            ConnectionPeerType::Unstaked,
            10,
            max_connections_per_peer,
        )
        .is_none());

    // We should be able to add an entry from another peer pubkey
    let num_entries = max_connections_per_peer + 1;
    let pubkey2 = unique_pubkey(1);
    assert!(table
        .try_add_connection(
            ConnectionTableKey::Pubkey(pubkey2),
            0,
            tracker(&stats),
            None,
            ConnectionPeerType::Unstaked,
            10,
            max_connections_per_peer,
        )
        .is_some());

    assert_eq!(table.total_size(), num_entries);

    let new_max_size = 3;
    let pruned = table.prune_oldest(new_max_size);
    assert!(pruned >= num_entries - new_max_size);
    assert!(table.len() <= new_max_size);
    assert!(table.total_size() <= new_max_size);

    table.remove_connection(ConnectionTableKey::Pubkey(pubkey2), 0, 0);
    assert_eq!(table.total_size(), 0);
    assert_eq!(stats.open_connections.load(Ordering::Relaxed), 0);
}

#[test]
fn test_prune_table_random() {
    let mut table = ConnectionTable::new();
    let num_entries = 5;
    let max_connections_per_peer = 10;
    let sockets: Vec<(IpAddress, u16)> = (0..num_entries).map(|i| (ip(i), 0)).collect();
    let stats: Arc<StreamerStats> = Arc::new(StreamerStats::new());

    for (i, socket) in sockets.iter().enumerate() {
        table
            .try_add_connection(
                ConnectionTableKey::IP(socket.0),
                socket.1,
                tracker(&stats),
                None,
                ConnectionPeerType::Staked((i + 1) as u64),
                i as u64,
                max_connections_per_peer,
            )
            .unwrap();
    }

    // Try pruninng with threshold stake less than all the entries in the table
    // It should fail to prune (i.e. return 0 number of pruned entries)
    let pruned = table.prune_random(/*sample_size:*/ 2, /*threshold_stake:*/ 0);
    assert_eq!(pruned, 0);

    // Try pruninng with threshold stake higher than all the entries in the table
    // It should succeed to prune (i.e. return 1 number of pruned entries)
    let pruned = table.prune_random(
        2,                      // sample_size
        num_entries as u64 + 1, // threshold_stake
    );
    assert_eq!(pruned, 1);
    // We had 5 connections and pruned 1, we should have 4 left
    assert_eq!(stats.open_connections.load(Ordering::Relaxed), 4);
}

#[test]
fn test_remove_connections() {
    let mut table = ConnectionTable::new();
    let num_ips = 5;
    let max_connections_per_peer = 10;
    let mut sockets: Vec<(IpAddress, u16)> = (0..num_ips).map(|i| (ip(i), 0)).collect();
    let stats: Arc<StreamerStats> = Arc::new(StreamerStats::new());

    for (i, socket) in sockets.iter().enumerate() {
        table
            .try_add_connection(
                ConnectionTableKey::IP(socket.0),
                socket.1,
                tracker(&stats),
                None,
                ConnectionPeerType::Unstaked,
                (i * 2) as u64,
                max_connections_per_peer,
            )
            .unwrap();

        table
            .try_add_connection(
                ConnectionTableKey::IP(socket.0),
                socket.1,
                tracker(&stats),
                None,
                ConnectionPeerType::Unstaked,
                (i * 2 + 1) as u64,
                max_connections_per_peer,
            )
            .unwrap();
    }

    let single_connection_addr = (ip(num_ips), 0);
    table
        .try_add_connection(
            ConnectionTableKey::IP(single_connection_addr.0),
            single_connection_addr.1,
            tracker(&stats),
            None,
            ConnectionPeerType::Unstaked,
            (num_ips * 2) as u64,
            max_connections_per_peer,
        )
        .unwrap();

    let zero_connection_addr = (ip(num_ips + 1), 0);

    sockets.push(single_connection_addr);
    sockets.push(zero_connection_addr);

    for socket in sockets.iter() {
        table.remove_connection(ConnectionTableKey::IP(socket.0), socket.1, 0);
    }
    assert_eq!(table.total_size(), 0);
    assert_eq!(stats.open_connections.load(Ordering::Relaxed), 0);
}

#[test]
fn test_client_connection_tracker() {
    let stats = Arc::new(StreamerStats::new());
    let tracker_1 = ClientConnectionTracker::new(stats.clone(), 1);
    assert!(tracker_1.is_ok());
    assert!(ClientConnectionTracker::new(stats.clone(), 1).is_err());
    assert_eq!(stats.open_connections.load(Ordering::Relaxed), 1);
    // dropping the connection, concurrent connections should become 0
    drop(tracker_1);
    assert_eq!(stats.open_connections.load(Ordering::Relaxed), 0);
}

#[test]
fn new_table_is_empty() {
    let table = ConnectionTable::new();
    assert_eq!(table.total_size(), 0);
    assert_eq!(table.len(), 0);
    assert_eq!(table.connections(ConnectionTableKey::IP(ip(1))), 0);
    assert_eq!(table.last_updates(), Vec::<u64>::new());
    assert_eq!(table.activity(), Vec::<u64>::new());
}

#[test]
fn total_size_is_sum_of_groups_and_empty_keys_leave() {
    let stats = Arc::new(StreamerStats::new());
    let mut table = ConnectionTable::new();
    let a = ConnectionTableKey::IP(ip(1));
    let b = ConnectionTableKey::Pubkey(unique_pubkey(7));
    for port in 0..3u16 {
        assert!(table
            .try_add_connection(a, port, tracker(&stats), None, ConnectionPeerType::Unstaked, 9, 8)
            .is_some());
    }
    assert!(table
        .try_add_connection(b, 1, tracker(&stats), None, ConnectionPeerType::Staked(5), 9, 8)
        .is_some());
    assert_eq!(table.len(), 2);
    assert_eq!(table.connections(a), 3);
    assert_eq!(table.connections(b), 1);
    assert_eq!(table.total_size(), 4);
    assert_eq!(stats.open_connections.load(Ordering::Relaxed), 4);

    assert_eq!(table.remove_connection(a, 1, 0), 1);
    assert_eq!(table.connections(a), 2);
    assert_eq!(table.len(), 2);
    assert_eq!(table.total_size(), 3);

    assert_eq!(table.remove_connection(b, 1, 0), 1);
    assert_eq!(table.connections(b), 0);
    assert_eq!(table.len(), 1);
    assert_eq!(table.total_size(), 2);

    // A port that no connection of the key has.
    assert_eq!(table.remove_connection(a, 77, 0), 0);
    assert_eq!(table.total_size(), 2);
    assert_eq!(stats.open_connections.load(Ordering::Relaxed), 2);
}

#[test]
fn key_at_its_cap_refuses_and_leaves_the_table_as_it_is() {
    let stats = Arc::new(StreamerStats::new());
    let mut table = ConnectionTable::new();
    let key = ConnectionTableKey::IP(ip(3));
    assert!(table
        .try_add_connection(key, 1, tracker(&stats), None, ConnectionPeerType::Unstaked, 1, 0)
        .is_none());
    assert_eq!(table.len(), 0);
    assert_eq!(table.total_size(), 0);
    assert!(table
        .try_add_connection(key, 1, tracker(&stats), None, ConnectionPeerType::Unstaked, 1, 1)
        .is_some());
    assert!(table
        .try_add_connection(key, 2, tracker(&stats), None, ConnectionPeerType::Unstaked, 1, 1)
        .is_none());
    assert_eq!(table.len(), 1);
    assert_eq!(table.total_size(), 1);
    assert_eq!(stats.open_connections.load(Ordering::Relaxed), 1);
}

#[test]
fn connections_of_one_key_share_their_stream_counter() {
    let stats = Arc::new(StreamerStats::new());
    let mut table = ConnectionTable::new();
    let key = ConnectionTableKey::IP(ip(3));
    let first = table
        .try_add_connection(key, 1, tracker(&stats), None, ConnectionPeerType::Unstaked, 1, 4)
        .unwrap();
    let second = table
        .try_add_connection(key, 2, tracker(&stats), None, ConnectionPeerType::Unstaked, 1, 4)
        .unwrap();
    let other = table
        .try_add_connection(
            ConnectionTableKey::IP(ip(4)),
            2,
            tracker(&stats),
            None,
            ConnectionPeerType::Unstaked,
            1,
            4,
        )
        .unwrap();
    assert!(Arc::ptr_eq(&first.2, &second.2));
    assert!(!Arc::ptr_eq(&first.2, &other.2));
}

#[test]
fn eviction_cancels_the_task_of_the_connection() {
    let stats = Arc::new(StreamerStats::new());
    let mut table = ConnectionTable::new();
    let (_, cancel_old, _) = table
        .try_add_connection(
            ConnectionTableKey::IP(ip(1)),
            1,
            tracker(&stats),
            None,
            ConnectionPeerType::Unstaked,
            10,
            4,
        )
        .unwrap();
    let (_, cancel_new, _) = table
        .try_add_connection(
            ConnectionTableKey::IP(ip(2)),
            1,
            tracker(&stats),
            None,
            ConnectionPeerType::Unstaked,
            20,
            4,
        )
        .unwrap();
    assert!(!cancel_old.is_cancelled());
    assert_eq!(table.prune_oldest(1), 1);
    assert!(cancel_old.is_cancelled());
    assert!(!cancel_new.is_cancelled());
    assert_eq!(table.last_updates(), vec![20]);
}

#[test]
fn prune_oldest_follows_the_shared_activity() {
    let stats = Arc::new(StreamerStats::new());
    let mut table = ConnectionTable::new();
    let mut stamps = Vec::new();
    for i in 0..4u8 {
        let (stamp, _, _) = table
            .try_add_connection(
                ConnectionTableKey::IP(ip(i)),
                1,
                tracker(&stats),
                None,
                ConnectionPeerType::Unstaked,
                i as u64,
                4,
            )
            .unwrap();
        stamps.push(stamp);
    }
    // The oldest connection becomes the most recently active one.
    stamps[0].store(100, Ordering::Relaxed);
    assert_eq!(table.activity(), vec![100, 1, 2, 3]);
    assert_eq!(table.prune_oldest(2), 2);
    let mut left = table.last_updates();
    left.sort();
    assert_eq!(left, vec![3, 100]);
}

#[test]
fn prune_oldest_by_evicts_in_the_order_of_activity() {
    let stats = Arc::new(StreamerStats::new());
    let mut table = ConnectionTable::new();
    for i in 0..5u8 {
        table
            .try_add_connection(
                ConnectionTableKey::IP(ip(i)),
                1,
                tracker(&stats),
                None,
                ConnectionPeerType::Unstaked,
                i as u64,
                4,
            )
            .unwrap();
    }
    // The activity handed in decides, not the stamps.
    assert_eq!(table.prune_oldest_by(vec![50, 40, 30, 20, 10], 3), 2);
    // 4 went first and 3 second; each time the last group took the place.
    assert_eq!(table.last_updates(), vec![0, 1, 2]);
    assert_eq!(table.prune_oldest_by(vec![7, 7, 7], 2), 1);
    // Among equals the first goes, and the last takes its place.
    assert_eq!(table.last_updates(), vec![2, 1]);
    assert_eq!(table.prune_oldest_by(vec![1, 2], 5), 0);
    assert_eq!(table.prune_oldest_by(vec![1, 2], 0), 2);
    assert_eq!(table.total_size(), 0);
    assert_eq!(table.len(), 0);
}

#[test]
fn find_oldest_takes_the_first_of_the_least() {
    assert_eq!(find_oldest(&vec![5]), 0);
    assert_eq!(find_oldest(&vec![5, 3, 9, 3]), 1);
    assert_eq!(find_oldest(&vec![1, 1, 1]), 0);
    assert_eq!(find_oldest(&vec![9, 8, 7]), 2);
}

#[test]
fn prune_sampled_evicts_the_least_stake_below_the_threshold() {
    let stats = Arc::new(StreamerStats::new());
    let mut table = ConnectionTable::new();
    for i in 0..5u8 {
        table
            .try_add_connection(
                ConnectionTableKey::IP(ip(i)),
                1,
                tracker(&stats),
                None,
                ConnectionPeerType::Staked(10 * (i as u64 + 1)),
                i as u64,
                4,
            )
            .unwrap();
    }
    // Stakes 10, 20, 30, 40, 50 at the indices 0 to 4.
    assert_eq!(table.prune_sampled(&vec![], 1000), 0);
    // The least sampled stake is 30: not below 30.
    assert_eq!(table.prune_sampled(&vec![4, 2], 30), 0);
    assert_eq!(table.total_size(), 5);
    // Below 31: the group at 2 goes, and the last group takes its place.
    assert_eq!(table.prune_sampled(&vec![4, 2], 31), 1);
    assert_eq!(table.last_updates(), vec![0, 1, 4, 3]);
    // One index sampled twice.
    assert_eq!(table.prune_sampled(&vec![3, 3], 41), 1);
    assert_eq!(table.last_updates(), vec![0, 1, 4]);
    assert_eq!(stats.open_connections.load(Ordering::Relaxed), 3);
}

#[test]
fn prune_random_never_evicts_at_or_over_the_threshold() {
    let stats = Arc::new(StreamerStats::new());
    for threshold in [0u64, 3, 5, 100] {
        let mut table = ConnectionTable::new();
        for i in 0..6u8 {
            table
                .try_add_connection(
                    ConnectionTableKey::IP(ip(i)),
                    1,
                    tracker(&stats),
                    None,
                    ConnectionPeerType::Staked(i as u64 + 1),
                    i as u64,
                    4,
                )
                .unwrap();
        }
        for _ in 0..20 {
            let before = table.last_updates();
            let pruned = table.prune_random(2, threshold);
            let after = table.last_updates();
            assert!(pruned <= 1);
            assert_eq!(after.len() + pruned, before.len());
            for gone in before.iter().filter(|stamp| !after.contains(stamp)) {
                // The stake of a connection is one more than its stamp.
                assert!(gone + 1 < threshold);
            }
        }
    }
    let mut empty = ConnectionTable::new();
    assert_eq!(empty.prune_random(2, 100), 0);
}

#[test]
fn unstaked_table_is_pruned_to_ninety_percent_at_its_ceiling() {
    let stats = Arc::new(StreamerStats::new());
    let mut table = ConnectionTable::new();
    let max_unstaked_connections = 100;
    let mut evicted_at_101 = Vec::new();
    for i in 0..150u64 {
        let before = table.last_updates();
        prune_unstaked_connection_table(&mut table, max_unstaked_connections, &stats);
        if i == 100 {
            // The table was at its ceiling: it is down to ninety now.
            assert_eq!(before.len(), 100);
            assert_eq!(table.total_size(), 90);
            let after = table.last_updates();
            evicted_at_101 =
                before.iter().copied().filter(|stamp| !after.contains(stamp)).collect();
        }
        assert!(table.total_size() < max_unstaked_connections);
        let key = ConnectionTableKey::Pubkey(unique_pubkey(i));
        assert!(table
            .try_add_connection(
                key,
                0,
                tracker(&stats),
                None,
                ConnectionPeerType::Unstaked,
                1000 + i,
                8
            )
            .is_some());
        if i == 100 {
            assert_eq!(table.total_size(), 91);
        }
    }
    evicted_at_101.sort();
    assert_eq!(evicted_at_101, (1000..1010).collect::<Vec<u64>>());
    assert_eq!(stats.num_evictions.load(Ordering::Relaxed), 50);
    assert_eq!(table.total_size(), 100);
    assert_eq!(stats.open_connections.load(Ordering::Relaxed), 100);
}

#[test]
fn close_codes_have_their_reasons() {
    assert_eq!(connection_close_reason(1), "dropped");
    assert_eq!(connection_close_reason(2), "disallowed");
    assert_eq!(connection_close_reason(3), "exceed_max_stream_count");
    assert_eq!(connection_close_reason(4), "too_many");
    assert_eq!(connection_close_reason(5), "invalid_stream");
    assert_eq!(connection_close_reason(0), "");
    assert_eq!(connection_close_reason(6), "");
}

#[test]
fn ceiling_of_zero_counts_no_connection() {
    let stats = Arc::new(StreamerStats::new());
    assert!(ClientConnectionTracker::new(stats.clone(), 0).is_err());
    assert_eq!(stats.open_connections.load(Ordering::Relaxed), 0);
    let first = ClientConnectionTracker::new(stats.clone(), 2).unwrap();
    let second = ClientConnectionTracker::new(stats.clone(), 2).unwrap();
    assert!(ClientConnectionTracker::new(stats.clone(), 2).is_err());
    // Each guard takes its connection off the counters that it was made with.
    let other = Arc::new(StreamerStats::new());
    let third = ClientConnectionTracker::new(other.clone(), 2).unwrap();
    drop(first);
    assert_eq!(stats.open_connections.load(Ordering::Relaxed), 1);
    assert_eq!(other.open_connections.load(Ordering::Relaxed), 1);
    drop(third);
    drop(second);
    assert_eq!(stats.open_connections.load(Ordering::Relaxed), 0);
    assert_eq!(other.open_connections.load(Ordering::Relaxed), 0);
}

#[test]
fn returned_handles_are_those_of_the_new_entry() {
    let stats = Arc::new(StreamerStats::new());
    let mut table = ConnectionTable::new();
    let key = ConnectionTableKey::IP(ip(9));
    let (stamp, _, counter) = table
        .try_add_connection(key, 1, tracker(&stats), None, ConnectionPeerType::Unstaked, 7, 4)
        .unwrap();
    assert_eq!(table.last_updates(), vec![7]);
    // The table reads the time that the task writes.
    stamp.store(70, Ordering::Relaxed);
    assert_eq!(table.last_updates(), vec![70]);
    assert_eq!(table.activity(), vec![70]);
    let (_, _, shared) = table
        .try_add_connection(key, 2, tracker(&stats), None, ConnectionPeerType::Unstaked, 8, 4)
        .unwrap();
    counter.stream_count.fetch_add(3, Ordering::Relaxed);
    assert_eq!(shared.stream_count.load(Ordering::Relaxed), 3);
    // The counter stays that of the key when its first connection has left.
    assert_eq!(table.remove_connection(key, 1, 0), 1);
    let (_, _, later) = table
        .try_add_connection(key, 3, tracker(&stats), None, ConnectionPeerType::Unstaked, 9, 4)
        .unwrap();
    assert!(Arc::ptr_eq(&later, &counter));
}

#[test]
fn no_connection_at_or_over_the_threshold_is_evicted() {
    let stats = Arc::new(StreamerStats::new());
    let mut table = ConnectionTable::new();
    let key = ConnectionTableKey::Pubkey(unique_pubkey(1));
    // One identity that has connected twice, across a refresh of the stakes.
    for (port, stake) in [(1u16, 1u64), (2, 100)] {
        table
            .try_add_connection(
                key,
                port,
                tracker(&stats),
                None,
                ConnectionPeerType::Staked(stake),
                port as u64,
                4,
            )
            .unwrap();
    }
    assert_eq!(table.prune_sampled(&vec![0], 50), 0);
    assert_eq!(table.prune_sampled(&vec![0], 100), 0);
    for _ in 0..20 {
        assert_eq!(table.prune_random(1, 50), 0);
        assert_eq!(table.prune_random(3, 100), 0);
        assert_eq!(table.prune_random(2, 0), 0);
        assert_eq!(table.prune_random(0, 1000), 0);
    }
    assert_eq!(table.total_size(), 2);
    assert_eq!(stats.open_connections.load(Ordering::Relaxed), 2);
    // Each connection of the group is below the threshold: the group goes whole.
    assert_eq!(table.prune_random(1, 101), 2);
    assert_eq!(table.total_size(), 0);
    assert_eq!(table.len(), 0);
    assert_eq!(stats.open_connections.load(Ordering::Relaxed), 0);
}

#[test]
fn sampled_groups_are_ranked_by_their_greatest_stake() {
    let stats = Arc::new(StreamerStats::new());
    let mut table = ConnectionTable::new();
    // The group at 0 holds stakes 1 and 40, the group at 1 holds stake 30.
    for (n, port, stake) in [(0u8, 1u16, 1u64), (0, 2, 40), (1, 1, 30)] {
        table
            .try_add_connection(
                ConnectionTableKey::IP(ip(n)),
                port,
                tracker(&stats),
                None,
                ConnectionPeerType::Staked(stake),
                10 * n as u64 + port as u64,
                4,
            )
            .unwrap();
    }
    assert_eq!(table.prune_sampled(&vec![0, 1], 30), 0);
    // The group of stake 30 is the lower one and goes.
    assert_eq!(table.prune_sampled(&vec![0, 1], 35), 1);
    assert_eq!(table.last_updates(), vec![1, 2]);
    assert_eq!(table.prune_sampled(&vec![0], 40), 0);
    assert_eq!(table.prune_sampled(&vec![0], 41), 2);
    assert_eq!(table.total_size(), 0);
}

#[test]
fn oldest_stamp_is_the_least() {
    assert_eq!(oldest_stamp(&vec![7]), 7);
    assert_eq!(oldest_stamp(&vec![7, 3, 9]), 3);
    assert_eq!(oldest_stamp(&vec![0, u64::MAX]), 0);
    assert_eq!(oldest_stamp(&vec![5, 5]), 5);
    // The activity of a group is the oldest of the stamps of its connections.
    let stats = Arc::new(StreamerStats::new());
    let mut table = ConnectionTable::new();
    let key = ConnectionTableKey::IP(ip(1));
    for (port, stamp) in [(1u16, 50u64), (2, 20), (3, 90)] {
        table
            .try_add_connection(
                key,
                port,
                tracker(&stats),
                None,
                ConnectionPeerType::Unstaked,
                stamp,
                4,
            )
            .unwrap();
    }
    assert_eq!(table.activity(), vec![20]);
    assert_eq!(table.last_updates(), vec![50, 20, 90]);
}

#[test]
fn interval_starts_anew_once_it_is_over() {
    assert_eq!(current_interval_start(1_000, 1_000), 1_000);
    assert_eq!(current_interval_start(1_000, 1_100), 1_000);
    assert_eq!(current_interval_start(1_000, 1_101), 1_101);
    assert_eq!(current_interval_start(1_000, 5), 1_000);
    assert_eq!(current_interval_start(0, u64::MAX), u64::MAX);
}

#[test]
fn close_all_empties_the_table() {
    let stats = Arc::new(StreamerStats::new());
    let mut table = ConnectionTable::new();
    let mut tokens = Vec::new();
    for n in 0..5u8 {
        for port in 0..2u16 {
            let (_, cancel, _) = table
                .try_add_connection(
                    ConnectionTableKey::IP(ip(n)),
                    port,
                    tracker(&stats),
                    None,
                    ConnectionPeerType::Unstaked,
                    n as u64,
                    4,
                )
                .unwrap();
            tokens.push(cancel);
        }
    }
    assert_eq!(table.close_all(), 10);
    assert_eq!(table.total_size(), 0);
    assert_eq!(table.len(), 0);
    assert!(tokens.iter().all(|cancel| cancel.is_cancelled()));
    assert_eq!(stats.open_connections.load(Ordering::Relaxed), 0);
    assert_eq!(table.close_all(), 0);
}

#[test]
fn builtin_migration_feature_index_variants() {
    let with_feature = BuiltinMigrationFeatureIndex::BuiltinWithMigrationFeature(3);
    assert!(matches!(with_feature, BuiltinMigrationFeatureIndex::BuiltinWithMigrationFeature(3)));
    assert_ne!(with_feature, BuiltinMigrationFeatureIndex::BuiltinWithMigrationFeature(4));
    assert_ne!(
        BuiltinMigrationFeatureIndex::NotBuiltin,
        BuiltinMigrationFeatureIndex::BuiltinNoMigrationFeature
    );
}

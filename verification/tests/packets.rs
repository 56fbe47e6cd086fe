use bytes::Bytes;
use crossbeam_channel::bounded;
use crossbeam_channel::unbounded;
use quic_streamer::batcher::track_streamer_fetch_packet_performance;
use quic_streamer::batcher::BatcherAction;
use quic_streamer::batcher::PacketBatcher;
use quic_streamer::batcher::PACKETS_PER_BATCH;
use quic_streamer::connection_entry::is_throttling_interval_over;
use quic_streamer::connection_entry::ConnectionStreamCounter;
use quic_streamer::connection_entry::CONNECTION_CLOSE_CODE_INVALID_STREAM;
use quic_streamer::handoff::SendOutcome;
use quic_streamer::limits::PACKET_DATA_SIZE;
use quic_streamer::packet::handle_chunks;
use quic_streamer::packet::into_packet;
use quic_streamer::packet::record_handoff;
use quic_streamer::packet::PacketAccumulator;
use quic_streamer::packet::PacketMeta;
use quic_streamer::packet::StreamError;
use quic_streamer::packet::StreamState;
use quic_streamer::peer::ConnectionPeerType;
use quic_streamer::peer::IpAddress;
use quic_streamer::stats::StreamerStats;
use quic_streamer::stream_handler::on_chunks;
use quic_streamer::stream_handler::on_read;
use quic_streamer::stream_handler::record_disconnect;
use quic_streamer::stream_handler::record_new_stream;
use quic_streamer::stream_handler::record_stream_done;
use quic_streamer::stream_handler::record_throttle;
use quic_streamer::stream_handler::throttle_duration;
use quic_streamer::stream_handler::ReadOutcome;
use quic_streamer::stream_handler::StreamAction;
use quic_streamer::stream_handler::STREAM_THROTTLING_INTERVAL_NANOS;
use quic_streamer::stream_throttle::StakedStreamLoadEMA;
use std::sync::atomic::Ordering;

fn meta() -> PacketMeta {
    PacketMeta::new(IpAddress::V4(0x0a00_0001), 8000, false)
}

fn chunk(len: usize, seed: u8) -> Bytes {
    Bytes::from((0..len).map(|i| seed.wrapping_add(i as u8)).collect::<Vec<u8>>())
}

#[test]
fn chunks_are_reassembled_in_the_order_of_arrival() {
    let stats = StreamerStats::new();
    for num_chunks in 1..=4usize {
        let (sender, receiver) = unbounded();
        let chunks: Vec<Bytes> =
            (0..num_chunks).map(|i| chunk(100 + 7 * i, 10 * i as u8)).collect();
        let mut expected = Vec::new();
        for chunk in &chunks {
            expected.extend_from_slice(chunk);
        }
        let mut accum = PacketAccumulator::new(meta());
        // The chunks come in two reads where there are enough of them.
        let split = num_chunks / 2;
        if split > 0 {
            assert_eq!(
                handle_chunks(
                    &chunks[..split],
                    &mut accum,
                    &sender,
                    &stats,
                    ConnectionPeerType::Unstaked
                ),
                Ok(StreamState::Receiving)
            );
        }
        assert_eq!(
            handle_chunks(
                &chunks[split..],
                &mut accum,
                &sender,
                &stats,
                ConnectionPeerType::Unstaked
            ),
            Ok(StreamState::Receiving)
        );
        assert!(receiver.try_recv().is_err());
        assert_eq!(accum.num_chunks(), num_chunks);
        assert_eq!(accum.meta.size, expected.len());
        assert_eq!(
            handle_chunks(&[], &mut accum, &sender, &stats, ConnectionPeerType::Unstaked),
            Ok(StreamState::Finished)
        );
        let forwarded = receiver.try_recv().unwrap();
        assert!(receiver.try_recv().is_err());
        assert_eq!(forwarded.num_chunks(), num_chunks);
        let packet = into_packet(forwarded);
        assert_eq!(&packet.buffer[..], &expected[..]);
        assert_eq!(packet.meta.size, expected.len());
        assert_eq!(packet.meta, PacketMeta { size: expected.len(), ..meta() });
    }
    assert_eq!(stats.total_packets_sent_for_batching.load(Ordering::Relaxed), 4);
    assert_eq!(stats.total_chunks_sent_for_batching.load(Ordering::Relaxed), 10);
    assert_eq!(stats.total_unstaked_chunks_received.load(Ordering::Relaxed), 10);
    assert_eq!(stats.total_staked_chunks_received.load(Ordering::Relaxed), 0);
}

#[test]
fn empty_stream_forwards_nothing() {
    let stats = StreamerStats::new();
    let (sender, receiver) = unbounded();
    let mut accum = PacketAccumulator::new(meta());
    let state = handle_chunks(&[], &mut accum, &sender, &stats, ConnectionPeerType::Staked(5));
    assert_eq!(state, Err(StreamError::Empty));
    assert!(receiver.try_recv().is_err());
    assert_eq!(stats.total_packet_batches_none.load(Ordering::Relaxed), 1);
    assert_eq!(stats.total_packets_sent_for_batching.load(Ordering::Relaxed), 0);
    // The connection stays.
    assert_eq!(on_chunks(state), StreamAction::StreamAbandoned);
}

#[test]
fn oversized_stream_is_invalid_and_closes_the_connection() {
    let stats = StreamerStats::new();
    let (sender, receiver) = unbounded();
    let mut accum = PacketAccumulator::new(meta());
    let chunks = [chunk(PACKET_DATA_SIZE - 1, 1), chunk(2, 2)];
    let state = handle_chunks(&chunks, &mut accum, &sender, &stats, ConnectionPeerType::Unstaked);
    assert_eq!(state, Err(StreamError::InvalidSize));
    assert_eq!(on_chunks(state), StreamAction::CloseConnection(5));
    assert_eq!(CONNECTION_CLOSE_CODE_INVALID_STREAM, 5);
    assert!(receiver.try_recv().is_err());
    assert_eq!(stats.invalid_stream_size.load(Ordering::Relaxed), 1);
    assert_eq!(stats.total_packets_sent_for_batching.load(Ordering::Relaxed), 0);
    // What came before the chunk that does not fit was taken in.
    assert_eq!(accum.num_chunks(), 1);
    assert_eq!(accum.meta.size, PACKET_DATA_SIZE - 1);

    // The same over two reads.
    let mut accum = PacketAccumulator::new(meta());
    assert_eq!(
        handle_chunks(&chunks[..1], &mut accum, &sender, &stats, ConnectionPeerType::Unstaked),
        Ok(StreamState::Receiving)
    );
    assert_eq!(
        handle_chunks(&chunks[1..], &mut accum, &sender, &stats, ConnectionPeerType::Unstaked),
        Err(StreamError::InvalidSize)
    );
    assert!(receiver.try_recv().is_err());

    // One chunk that is too large by itself, with a small one behind it.
    let mut accum = PacketAccumulator::new(meta());
    let chunks = [chunk(PACKET_DATA_SIZE + 1, 1), chunk(1, 2)];
    assert_eq!(
        handle_chunks(&chunks, &mut accum, &sender, &stats, ConnectionPeerType::Unstaked),
        Err(StreamError::InvalidSize)
    );
    assert_eq!(accum.num_chunks(), 0);
    assert_eq!(accum.meta.size, 0);
}

#[test]
fn stream_of_exactly_one_packet_fits() {
    let stats = StreamerStats::new();
    let (sender, receiver) = unbounded();
    let mut accum = PacketAccumulator::new(meta());
    let chunks = [chunk(1000, 1), chunk(PACKET_DATA_SIZE - 1000, 2)];
    assert_eq!(
        handle_chunks(&chunks, &mut accum, &sender, &stats, ConnectionPeerType::Staked(1)),
        Ok(StreamState::Receiving)
    );
    assert!(accum.push_chunk(Bytes::new()));
    assert!(!accum.push_chunk(chunk(1, 0)));
    assert_eq!(accum.num_chunks(), 3);
    assert_eq!(
        handle_chunks(&[], &mut accum, &sender, &stats, ConnectionPeerType::Staked(1)),
        Ok(StreamState::Finished)
    );
    let packet = into_packet(receiver.try_recv().unwrap());
    assert_eq!(packet.buffer.len(), PACKET_DATA_SIZE);
    assert_eq!(&packet.buffer[..1000], &chunks[0][..]);
    assert_eq!(&packet.buffer[1000..], &chunks[1][..]);
    assert_eq!(stats.total_staked_chunks_received.load(Ordering::Relaxed), 2);
    assert_eq!(stats.total_staked_packets_sent_for_batching.load(Ordering::Relaxed), 1);
    assert_eq!(stats.total_bytes_sent_for_batching.load(Ordering::Relaxed), PACKET_DATA_SIZE);
}

#[test]
fn packet_of_no_chunk_is_empty() {
    let packet = into_packet(PacketAccumulator::new(meta()));
    assert_eq!(packet.buffer.len(), 0);
    assert_eq!(packet.meta, meta());
}

#[test]
fn duplicate_shares_the_chunks() {
    let mut accum = PacketAccumulator::new(meta());
    assert!(accum.push_chunk(chunk(10, 3)));
    assert!(accum.push_chunk(chunk(20, 4)));
    let copy = accum.duplicate();
    assert_eq!(copy.meta, accum.meta);
    assert_eq!(copy.start_time, accum.start_time);
    assert_eq!(copy.num_chunks(), 2);
    let first = into_packet(accum);
    let second = into_packet(copy);
    assert_eq!(first.buffer, second.buffer);
    assert_eq!(first.buffer.len(), 30);
}

#[test]
fn full_queue_drops_and_counts() {
    let stats = StreamerStats::new();
    let (sender, receiver) = bounded(1024);
    for i in 0..2000u32 {
        let mut accum = PacketAccumulator::new(meta());
        let payload = Bytes::from(i.to_be_bytes().to_vec());
        assert_eq!(
            handle_chunks(&[payload], &mut accum, &sender, &stats, ConnectionPeerType::Unstaked),
            Ok(StreamState::Receiving)
        );
        // A packet that the queue does not take is dropped; the stream is finished all the same.
        assert_eq!(
            handle_chunks(&[], &mut accum, &sender, &stats, ConnectionPeerType::Unstaked),
            Ok(StreamState::Finished)
        );
    }
    assert_eq!(stats.total_packets_sent_for_batching.load(Ordering::Relaxed), 1024);
    assert_eq!(stats.total_handle_chunk_to_packet_batcher_send_err.load(Ordering::Relaxed), 976);
    assert_eq!(
        stats.total_handle_chunk_to_packet_batcher_send_full_err.load(Ordering::Relaxed),
        976
    );
    assert_eq!(
        stats.total_handle_chunk_to_packet_batcher_send_disconnected_err.load(Ordering::Relaxed),
        0
    );
    // The packets forwarded are the first 1024, each once and as it was sent.
    for i in 0..1024u32 {
        let packet = into_packet(receiver.try_recv().unwrap());
        assert_eq!(&packet.buffer[..], &i.to_be_bytes()[..]);
    }
    assert!(receiver.try_recv().is_err());

    // Nobody receives any more.
    drop(receiver);
    let mut accum = PacketAccumulator::new(meta());
    assert!(accum.push_chunk(chunk(1, 1)));
    assert_eq!(
        handle_chunks(&[], &mut accum, &sender, &stats, ConnectionPeerType::Unstaked),
        Ok(StreamState::Finished)
    );
    assert_eq!(
        stats.total_handle_chunk_to_packet_batcher_send_disconnected_err.load(Ordering::Relaxed),
        1
    );
}

#[test]
fn handoff_is_counted_by_its_outcome() {
    let stats = StreamerStats::new();
    record_handoff(&stats, SendOutcome::Sent, 100, 3, ConnectionPeerType::Staked(1));
    record_handoff(&stats, SendOutcome::Sent, 50, 1, ConnectionPeerType::Unstaked);
    record_handoff(&stats, SendOutcome::Full, 70, 1, ConnectionPeerType::Unstaked);
    record_handoff(&stats, SendOutcome::Disconnected, 70, 1, ConnectionPeerType::Unstaked);
    assert_eq!(stats.total_packets_sent_for_batching.load(Ordering::Relaxed), 2);
    assert_eq!(stats.total_bytes_sent_for_batching.load(Ordering::Relaxed), 150);
    assert_eq!(stats.total_chunks_sent_for_batching.load(Ordering::Relaxed), 4);
    assert_eq!(stats.total_staked_packets_sent_for_batching.load(Ordering::Relaxed), 1);
    assert_eq!(stats.total_unstaked_packets_sent_for_batching.load(Ordering::Relaxed), 1);
    assert_eq!(stats.total_handle_chunk_to_packet_batcher_send_err.load(Ordering::Relaxed), 2);
}

#[test]
fn test_packet_batcher() {
    let stats = StreamerStats::new();
    let (ptk_sender, pkt_receiver) = unbounded();
    let num_packets = 1000;
    for _i in 0..num_packets {
        let bytes = Bytes::from("Hello world");
        let mut packet_accum = PacketAccumulator::new(meta());
        assert!(packet_accum.push_chunk(bytes));
        ptk_sender.send(packet_accum).unwrap();
    }
    let coalesce: u128 = 5_000_000;
    let mut batcher = PacketBatcher::new(coalesce, &stats);
    let mut i = 0;
    let mut batches = 0;
    loop {
        match batcher.next_action(0, false) {
            BatcherAction::Send => {
                for packet in batcher.pending() {
                    assert_eq!(&packet.buffer[..], b"Hello world");
                }
                i += batcher.len();
                batches += 1;
                assert!(batcher.on_send(SendOutcome::Sent, &stats));
            }
            BatcherAction::Wait | BatcherAction::WaitAtMost(_) => match pkt_receiver.try_recv() {
                Ok(packet_accumulator) => batcher.push(packet_accumulator, false, &stats),
                Err(_) => break,
            },
            BatcherAction::Exit => unreachable!(),
        }
    }
    // What is left is due once the coalescing time is over.
    assert_eq!(batcher.next_action(coalesce, false), BatcherAction::Send);
    i += batcher.len();
    batches += 1;
    assert!(batcher.on_send(SendOutcome::Sent, &stats));
    assert_eq!(i, num_packets);
    assert_eq!(batches, 16);
    assert_eq!(stats.total_packets_sent_to_consumer.load(Ordering::Relaxed), 1000);
    assert_eq!(stats.total_bytes_sent_to_consumer.load(Ordering::Relaxed), 11_000);
    assert_eq!(stats.total_packet_batches_sent.load(Ordering::Relaxed), 16);
    assert_eq!(stats.total_chunks_processed_by_batcher.load(Ordering::Relaxed), 1000);
}

#[test]
fn batch_leaves_when_full_or_due() {
    let stats = StreamerStats::new();
    let mut batcher = PacketBatcher::new(1000, &stats);
    assert_eq!(PACKETS_PER_BATCH, 64);
    assert_eq!(PACKETS_PER_BATCH, solana_perf::packet::PACKETS_PER_BATCH);
    assert!(batcher.is_empty());
    assert_eq!(batcher.next_action(0, false), BatcherAction::Wait);
    assert_eq!(batcher.next_action(5000, false), BatcherAction::Wait);
    assert_eq!(batcher.next_action(5000, true), BatcherAction::Exit);
    let mut first = PacketAccumulator::new(meta());
    assert!(first.push_chunk(chunk(5, 1)));
    assert!(first.push_chunk(chunk(6, 2)));
    batcher.push(first, true, &stats);
    assert!(!batcher.is_empty());
    assert_eq!(batcher.len(), 1);
    assert!(batcher.pending()[0].meta.track_performance);
    assert_eq!(batcher.pending()[0].meta.size, 11);
    assert_eq!(&batcher.pending()[0].buffer[..], &[1, 2, 3, 4, 5, 2, 3, 4, 5, 6, 7][..]);
    assert_eq!(batcher.next_action(0, false), BatcherAction::WaitAtMost(1000));
    assert_eq!(batcher.next_action(999, false), BatcherAction::WaitAtMost(1));
    assert_eq!(batcher.next_action(1000, false), BatcherAction::Send);
    assert_eq!(batcher.next_action(1001, false), BatcherAction::Send);
    assert_eq!(batcher.next_action(1001, true), BatcherAction::Exit);
    for _ in 1..PACKETS_PER_BATCH {
        assert_eq!(batcher.next_action(1, false), BatcherAction::WaitAtMost(999));
        let mut accum = PacketAccumulator::new(meta());
        assert!(accum.push_chunk(chunk(3, 0)));
        batcher.push(accum, false, &stats);
    }
    assert_eq!(batcher.len(), 64);
    assert_eq!(batcher.next_action(1, false), BatcherAction::Send);

    // The consumer has no room: the batch stays, to be sent again.
    assert!(batcher.on_send(SendOutcome::Full, &stats));
    assert_eq!(batcher.len(), 64);
    assert_eq!(batcher.next_action(1, false), BatcherAction::Send);
    assert_eq!(stats.total_packet_batch_send_err.load(Ordering::Relaxed), 1);
    assert_eq!(stats.total_packets_sent_to_consumer.load(Ordering::Relaxed), 0);

    // The consumer is gone: the batcher ends.
    assert!(!batcher.on_send(SendOutcome::Disconnected, &stats));
    assert_eq!(batcher.len(), 64);
    assert_eq!(stats.total_packet_batch_send_err.load(Ordering::Relaxed), 2);

    assert!(batcher.on_send(SendOutcome::Sent, &stats));
    assert_eq!(batcher.len(), 0);
    assert_eq!(batcher.next_action(5000, false), BatcherAction::Wait);
    assert_eq!(stats.total_packets_sent_to_consumer.load(Ordering::Relaxed), 64);
    assert_eq!(stats.total_bytes_sent_to_consumer.load(Ordering::Relaxed), 11 + 63 * 3);
    assert_eq!(stats.total_packet_batches_allocated.load(Ordering::Relaxed), 2);
    assert_eq!(stats.total_packets_allocated.load(Ordering::Relaxed), 128);
}

#[test]
fn stream_is_held_back_for_the_rest_of_the_interval() {
    assert_eq!(STREAM_THROTTLING_INTERVAL_NANOS, 100_000_000);
    // Within the allowance: no delay.
    assert_eq!(throttle_duration(0, 1, 0), 0);
    assert_eq!(throttle_duration(9, 10, 40_000_000), 0);
    // The allowance is used up: the rest of the interval.
    assert_eq!(throttle_duration(10, 10, 40_000_000), 60_000_000);
    assert_eq!(throttle_duration(11, 10, 0), 100_000_000);
    assert_eq!(throttle_duration(10, 10, 99_999_999), 1);
    // The interval is over.
    assert_eq!(throttle_duration(10, 10, 100_000_000), 0);
    assert_eq!(throttle_duration(10, 10, u128::MAX), 0);
    assert_eq!(throttle_duration(0, 0, 10), 99_999_990);
}

#[test]
fn burst_of_a_staked_peer_is_delayed_once_its_allowance_is_used_up() {
    // A peer with a tenth of the stake, at a server without load that takes 500 streams in a
    // millisecond and holds up to 500 unstaked connections.
    let estimator = StakedStreamLoadEMA::new(500, 500, 1_000);
    let allowance = estimator
        .available_load_capacity_in_throttling_duration(ConnectionPeerType::Staked(1000), 10_000);
    assert_eq!(allowance, 16_000);
    let counter = ConnectionStreamCounter::new(1_000);
    let mut delays = Vec::new();
    for n in 0..=allowance {
        let interval_start = counter.reset_throttling_params_if_needed(1_030);
        assert_eq!(interval_start, 1_000);
        let elapsed: u128 = 30_000_000;
        let streams_read = counter.stream_count.load(Ordering::Relaxed);
        assert_eq!(streams_read, n);
        delays.push(throttle_duration(streams_read, allowance, elapsed));
        counter.stream_count.fetch_add(1, Ordering::Relaxed);
    }
    let (last, within) = delays.split_last().unwrap();
    assert!(within.iter().all(|delay| *delay == 0));
    assert_eq!(*last, 70_000_000);
    assert!(*last as u128 + 30_000_000 >= STREAM_THROTTLING_INTERVAL_NANOS as u128);
    // A new interval begins once the old one is over, and the count with it.
    assert_eq!(counter.reset_throttling_params_if_needed(1_100), 1_000);
    assert_eq!(counter.reset_throttling_params_if_needed(1_101), 1_101);
    assert_eq!(counter.stream_count.load(Ordering::Relaxed), 0);
    assert!(!is_throttling_interval_over(1_000, 1_100));
    assert!(is_throttling_interval_over(1_000, 1_101));
    assert!(!is_throttling_interval_over(1_000, 5));
}

#[test]
fn throttled_streams_are_counted_by_class() {
    let stats = StreamerStats::new();
    record_throttle(&stats, 0, ConnectionPeerType::Unstaked);
    record_throttle(&stats, 5, ConnectionPeerType::Unstaked);
    record_throttle(&stats, 5, ConnectionPeerType::Staked(1));
    record_throttle(&stats, 7, ConnectionPeerType::Staked(1));
    assert_eq!(stats.throttled_streams.load(Ordering::Relaxed), 3);
    assert_eq!(stats.throttled_unstaked_streams.load(Ordering::Relaxed), 1);
    assert_eq!(stats.throttled_staked_streams.load(Ordering::Relaxed), 2);
    record_new_stream(&stats);
    record_new_stream(&stats);
    record_stream_done(&stats);
    assert_eq!(stats.total_streams.load(Ordering::Relaxed), 1);
    assert_eq!(stats.total_new_streams.load(Ordering::Relaxed), 2);
}

#[test]
fn reads_decide_what_becomes_of_the_stream() {
    let stats = StreamerStats::new();
    assert_eq!(on_read(&stats, ReadOutcome::Chunks(0)), None);
    assert_eq!(on_read(&stats, ReadOutcome::Chunks(3)), None);
    assert_eq!(on_read(&stats, ReadOutcome::ReadError), Some(StreamAction::StreamAbandoned));
    assert_eq!(on_read(&stats, ReadOutcome::Timeout), Some(StreamAction::StreamAbandoned));
    assert_eq!(on_read(&stats, ReadOutcome::Timeout), Some(StreamAction::StreamAbandoned));
    assert_eq!(stats.total_stream_read_errors.load(Ordering::Relaxed), 1);
    assert_eq!(stats.total_stream_read_timeouts.load(Ordering::Relaxed), 2);
    assert_eq!(on_chunks(Ok(StreamState::Receiving)), StreamAction::KeepReading);
    assert_eq!(on_chunks(Ok(StreamState::Finished)), StreamAction::StreamFinished);
    assert_eq!(on_chunks(Err(StreamError::Empty)), StreamAction::StreamAbandoned);
    assert_eq!(on_chunks(Err(StreamError::InvalidSize)), StreamAction::CloseConnection(5));
}

#[test]
fn disconnects_are_counted() {
    let stats = StreamerStats::new();
    stats.total_connections.store(3, Ordering::Relaxed);
    record_disconnect(&stats, 2);
    record_disconnect(&stats, 0);
    assert_eq!(stats.connection_removed.load(Ordering::Relaxed), 2);
    assert_eq!(stats.connection_remove_failed.load(Ordering::Relaxed), 1);
    assert_eq!(stats.total_connections.load(Ordering::Relaxed), 1);
}

#[test]
fn sampled_packets_have_their_time_counted() {
    let stats = StreamerStats::new();
    let mut batcher = PacketBatcher::new(1000, &stats);
    for track in [true, false, true] {
        let mut accum = PacketAccumulator::new(meta());
        assert!(accum.push_chunk(chunk(3, 0)));
        batcher.push(accum, track, &stats);
    }
    let flags: Vec<bool> =
        batcher.pending().iter().map(|packet| packet.meta.track_performance).collect();
    assert_eq!(flags, vec![true, false, true]);
    // A batch that could not be sent keeps its measurements for the next attempt.
    assert!(batcher.on_send(SendOutcome::Full, &stats));
    assert_eq!(stats.process_sampled_packets.load(Ordering::Relaxed), 0);
    assert!(batcher.on_send(SendOutcome::Sent, &stats));
    assert_eq!(stats.process_sampled_packets.load(Ordering::Relaxed), 2);
    assert!(batcher.on_send(SendOutcome::Sent, &stats));
    assert_eq!(stats.process_sampled_packets.load(Ordering::Relaxed), 2);

    let start = std::time::Instant::now();
    while start.elapsed() < std::time::Duration::from_millis(3) {}
    track_streamer_fetch_packet_performance(&vec![start, start], &stats);
    track_streamer_fetch_packet_performance(&vec![], &stats);
    assert_eq!(stats.process_sampled_packets.load(Ordering::Relaxed), 4);
    assert!(stats.process_sampled_packets_us_total.load(Ordering::Relaxed) >= 6000);
}

#[test]
fn sampling_puts_the_packet_into_the_batch_either_way() {
    let stats = StreamerStats::new();
    let mut batcher = PacketBatcher::new(1000, &stats);
    // Too short to hold a signature: never sampled.
    let mut accum = PacketAccumulator::new(meta());
    assert!(accum.push_chunk(chunk(5, 1)));
    assert!(accum.push_chunk(chunk(2, 9)));
    batcher.push_sampled(accum, &stats);
    assert_eq!(batcher.len(), 1);
    assert!(!batcher.pending()[0].meta.track_performance);
    assert_eq!(&batcher.pending()[0].buffer[..], &[1, 2, 3, 4, 5, 9, 10][..]);
    // One signature announced, and the bytes of it: sampled or not, by the mask of the process.
    let mut transaction = vec![1u8];
    transaction.extend_from_slice(&[7u8; 64]);
    let mut sampled = 0;
    for _ in 0..10 {
        let mut accum = PacketAccumulator::new(meta());
        assert!(accum.push_chunk(Bytes::from(transaction.clone())));
        batcher.push_sampled(accum, &stats);
        let packet = batcher.pending().last().unwrap();
        assert_eq!(&packet.buffer[..], &transaction[..]);
        assert_eq!(packet.meta.size, 65);
        if packet.meta.track_performance {
            sampled += 1;
        }
    }
    // The same bytes are sampled every time or never.
    assert!(sampled == 0 || sampled == 10);
    assert_eq!(batcher.len(), 11);
    assert!(batcher.on_send(SendOutcome::Sent, &stats));
    assert_eq!(stats.process_sampled_packets.load(Ordering::Relaxed), sampled);
    assert_eq!(stats.total_packets_sent_to_consumer.load(Ordering::Relaxed), 11);
}

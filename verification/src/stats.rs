//! Counters of the server. They are written from many tasks at once and read
//! by whoever reports them; no decision of the library rests on a value read
//! back from one of them.

use std::sync::atomic::AtomicUsize;
use std::sync::atomic::Ordering;
use vstd::prelude::*;

verus! {

pub struct StreamerStats {
    pub open_connections: AtomicUsize,
    pub total_connections: AtomicUsize,
    pub total_new_connections: AtomicUsize,
    pub total_incoming_connection_attempts: AtomicUsize,
    pub outstanding_incoming_connection_attempts: AtomicUsize,
    pub refused_connections_too_many_open_connections: AtomicUsize,
    pub connection_rate_limited_per_ipaddr: AtomicUsize,
    pub connection_rate_limited_across_all: AtomicUsize,
    pub connection_added_from_staked_peer: AtomicUsize,
    pub connection_added_from_unstaked_peer: AtomicUsize,
    pub connection_add_failed: AtomicUsize,
    pub connection_add_failed_invalid_stream_count: AtomicUsize,
    pub connection_add_failed_staked_node: AtomicUsize,
    pub connection_add_failed_unstaked_node: AtomicUsize,
    pub connection_add_failed_on_pruning: AtomicUsize,
    pub connection_removed: AtomicUsize,
    pub connection_remove_failed: AtomicUsize,
    pub connection_setup_timeout: AtomicUsize,
    pub connection_setup_error: AtomicUsize,
    pub connection_setup_error_timed_out: AtomicUsize,
    pub connection_setup_error_closed: AtomicUsize,
    pub connection_setup_error_transport: AtomicUsize,
    pub connection_setup_error_app_closed: AtomicUsize,
    pub connection_setup_error_reset: AtomicUsize,
    pub connection_setup_error_locally_closed: AtomicUsize,
    pub num_evictions: AtomicUsize,
    pub total_streams: AtomicUsize,
    pub total_new_streams: AtomicUsize,
    pub total_stream_read_errors: AtomicUsize,
    pub total_stream_read_timeouts: AtomicUsize,
    pub throttled_streams: AtomicUsize,
    pub throttled_staked_streams: AtomicUsize,
    pub throttled_unstaked_streams: AtomicUsize,
    pub invalid_stream_size: AtomicUsize,
    pub total_packet_batches_none: AtomicUsize,
    pub total_staked_chunks_received: AtomicUsize,
    pub total_unstaked_chunks_received: AtomicUsize,
    pub total_handle_chunk_to_packet_batcher_send_err: AtomicUsize,
    pub total_handle_chunk_to_packet_batcher_send_full_err: AtomicUsize,
    pub total_handle_chunk_to_packet_batcher_send_disconnected_err: AtomicUsize,
    pub total_packets_sent_for_batching: AtomicUsize,
    pub total_bytes_sent_for_batching: AtomicUsize,
    pub total_chunks_sent_for_batching: AtomicUsize,
    pub total_staked_packets_sent_for_batching: AtomicUsize,
    pub total_unstaked_packets_sent_for_batching: AtomicUsize,
    pub total_packet_batches_allocated: AtomicUsize,
    pub total_packets_allocated: AtomicUsize,
    pub total_packet_batch_send_err: AtomicUsize,
    pub total_packet_batches_sent: AtomicUsize,
    pub total_packets_sent_to_consumer: AtomicUsize,
    pub total_bytes_sent_to_consumer: AtomicUsize,
    pub total_chunks_processed_by_batcher: AtomicUsize,
    pub process_sampled_packets: AtomicUsize,
    pub process_sampled_packets_us_total: AtomicUsize,
}

/// Counts `by` more on a counter. The count wraps at the largest value.
pub fn count(counter: &AtomicUsize, by: usize) {
    counter.fetch_add(by, Ordering::Relaxed);
}

/// Counts `by` less on a counter. The count wraps below zero.
pub fn uncount(counter: &AtomicUsize, by: usize) {
    counter.fetch_sub(by, Ordering::Relaxed);
}

impl StreamerStats {
    /// All counters at zero.
    pub fn new() -> Self {
        StreamerStats {
            open_connections: AtomicUsize::new(0),
            total_connections: AtomicUsize::new(0),
            total_new_connections: AtomicUsize::new(0),
            total_incoming_connection_attempts: AtomicUsize::new(0),
            outstanding_incoming_connection_attempts: AtomicUsize::new(0),
            refused_connections_too_many_open_connections: AtomicUsize::new(0),
            connection_rate_limited_per_ipaddr: AtomicUsize::new(0),
            connection_rate_limited_across_all: AtomicUsize::new(0),
            connection_added_from_staked_peer: AtomicUsize::new(0),
            connection_added_from_unstaked_peer: AtomicUsize::new(0),
            connection_add_failed: AtomicUsize::new(0),
            connection_add_failed_invalid_stream_count: AtomicUsize::new(0),
            connection_add_failed_staked_node: AtomicUsize::new(0),
            connection_add_failed_unstaked_node: AtomicUsize::new(0),
            connection_add_failed_on_pruning: AtomicUsize::new(0),
            connection_removed: AtomicUsize::new(0),
            connection_remove_failed: AtomicUsize::new(0),
            connection_setup_timeout: AtomicUsize::new(0),
            connection_setup_error: AtomicUsize::new(0),
            connection_setup_error_timed_out: AtomicUsize::new(0),
            connection_setup_error_closed: AtomicUsize::new(0),
            connection_setup_error_transport: AtomicUsize::new(0),
            connection_setup_error_app_closed: AtomicUsize::new(0),
            connection_setup_error_reset: AtomicUsize::new(0),
            connection_setup_error_locally_closed: AtomicUsize::new(0),
            num_evictions: AtomicUsize::new(0),
            total_streams: AtomicUsize::new(0),
            total_new_streams: AtomicUsize::new(0),
            total_stream_read_errors: AtomicUsize::new(0),
            total_stream_read_timeouts: AtomicUsize::new(0),
            throttled_streams: AtomicUsize::new(0),
            throttled_staked_streams: AtomicUsize::new(0),
            throttled_unstaked_streams: AtomicUsize::new(0),
            invalid_stream_size: AtomicUsize::new(0),
            total_packet_batches_none: AtomicUsize::new(0),
            total_staked_chunks_received: AtomicUsize::new(0),
            total_unstaked_chunks_received: AtomicUsize::new(0),
            total_handle_chunk_to_packet_batcher_send_err: AtomicUsize::new(0),
            total_handle_chunk_to_packet_batcher_send_full_err: AtomicUsize::new(0),
            total_handle_chunk_to_packet_batcher_send_disconnected_err: AtomicUsize::new(0),
            total_packets_sent_for_batching: AtomicUsize::new(0),
            total_bytes_sent_for_batching: AtomicUsize::new(0),
            total_chunks_sent_for_batching: AtomicUsize::new(0),
            total_staked_packets_sent_for_batching: AtomicUsize::new(0),
            total_unstaked_packets_sent_for_batching: AtomicUsize::new(0),
            total_packet_batches_allocated: AtomicUsize::new(0),
            total_packets_allocated: AtomicUsize::new(0),
            total_packet_batch_send_err: AtomicUsize::new(0),
            total_packet_batches_sent: AtomicUsize::new(0),
            total_packets_sent_to_consumer: AtomicUsize::new(0),
            total_bytes_sent_to_consumer: AtomicUsize::new(0),
            total_chunks_processed_by_batcher: AtomicUsize::new(0),
            process_sampled_packets: AtomicUsize::new(0),
            process_sampled_packets_us_total: AtomicUsize::new(0),
        }
    }
}

} // verus!

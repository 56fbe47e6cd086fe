//! What a peer is allowed: the number of streams it may have open at once,
//! and the window of bytes that the server receives from it ahead of
//! reading.

use crate::peer::ConnectionPeerType;
use crate::transport::varint_from_u64;
use crate::transport::varint_value;
use quinn_proto::VarInt;
use quinn_proto::VarIntBoundsExceeded;
use vstd::arithmetic::div_mod::lemma_div_is_ordered;
use vstd::arithmetic::div_mod::lemma_div_multiples_vanish;
use vstd::arithmetic::mul::lemma_mul_inequality;
use vstd::prelude::*;

verus! {

/// The largest payload of one packet, in bytes.
pub const PACKET_DATA_SIZE: usize = 1232;

pub const QUIC_MAX_UNSTAKED_CONCURRENT_STREAMS: usize = 128;

pub const QUIC_MIN_STAKED_CONCURRENT_STREAMS: usize = 128;

pub const QUIC_TOTAL_STAKED_CONCURRENT_STREAMS: usize = 100_000;

pub const QUIC_MAX_STAKED_CONCURRENT_STREAMS: usize = 512;

/// The receive window of an unstaked peer, in packets.
pub const QUIC_UNSTAKED_RECEIVE_WINDOW_RATIO: u64 = 128;

/// The receive window of the staked peer with the least stake, in packets.
pub const QUIC_MIN_STAKED_RECEIVE_WINDOW_RATIO: u64 = 128;

/// The receive window of the staked peer with the most stake, in packets.
pub const QUIC_MAX_STAKED_RECEIVE_WINDOW_RATIO: u64 = 512;

/// `value`, brought into the range from `low` to `high`.
pub open spec fn clamped(value: int, low: int, high: int) -> int {
    if value < low {
        low
    } else if value > high {
        high
    } else {
        value
    }
}

/// The streams that all staked peers share in proportion to their stake.
pub open spec fn shared_streams() -> int {
    QUIC_TOTAL_STAKED_CONCURRENT_STREAMS - QUIC_MIN_STAKED_CONCURRENT_STREAMS
}

/// The number of streams that a peer may have open at once.
///
/// An unstaked peer gets the fixed maximum for unstaked peers. A staked peer
/// gets the staked minimum and, on top of it, its share of the streams that
/// the staked peers have in common, rounded down; the sum is held within the
/// staked minimum and maximum. Where the snapshot is inconsistent, with no
/// stake in total or less in total than the peer has, it gets the minimum.
pub open spec fn max_allowed_uni_streams(peer_type: ConnectionPeerType, total_stake: u64) -> int {
    match peer_type {
        ConnectionPeerType::Unstaked => QUIC_MAX_UNSTAKED_CONCURRENT_STREAMS as int,
        ConnectionPeerType::Staked(peer_stake) => {
            if total_stake == 0 || peer_stake > total_stake {
                QUIC_MIN_STAKED_CONCURRENT_STREAMS as int
            } else {
                clamped(
                    (peer_stake * shared_streams()) / (total_stake as int)
                        + QUIC_MIN_STAKED_CONCURRENT_STREAMS,
                    QUIC_MIN_STAKED_CONCURRENT_STREAMS as int,
                    QUIC_MAX_STAKED_CONCURRENT_STREAMS as int,
                )
            }
        },
    }
}

proof fn lemma_share_bounded(stake: int, total: int, shared: int)
    requires
        0 <= stake <= total,
        0 < total,
        0 <= shared,
    ensures
        0 <= (stake * shared) / total <= shared,
{
    lemma_mul_inequality(stake, total, shared);
    lemma_mul_inequality(0, stake, shared);
    lemma_div_is_ordered(stake * shared, total * shared, total);
    lemma_div_is_ordered(0, stake * shared, total);
    lemma_div_multiples_vanish(shared, total);
    assert(0int / total == 0) by (nonlinear_arith)
        requires
            0 < total,
    ;
    assert(0 * shared == 0);
}

pub fn compute_max_allowed_uni_streams(peer_type: ConnectionPeerType, total_stake: u64) -> (streams:
    usize)
    ensures
        streams == max_allowed_uni_streams(peer_type, total_stake),
{
    match peer_type {
        ConnectionPeerType::Staked(peer_stake) => {
            if total_stake == 0 || peer_stake > total_stake {
                QUIC_MIN_STAKED_CONCURRENT_STREAMS
            } else {
                let shared: u128 = (QUIC_TOTAL_STAKED_CONCURRENT_STREAMS
                    - QUIC_MIN_STAKED_CONCURRENT_STREAMS) as u128;
                assert(peer_stake * shared <= 0xffff_ffff_ffff_ffff * 99872) by (nonlinear_arith)
                    requires
                        peer_stake <= 0xffff_ffff_ffff_ffff,
                        shared == 99872,
                ;
                proof {
                    lemma_share_bounded(peer_stake as int, total_stake as int, shared as int);
                }
                let share: u128 = (peer_stake as u128 * shared) / (total_stake as u128);
                let streams: usize = share as usize + QUIC_MIN_STAKED_CONCURRENT_STREAMS;
                if streams > QUIC_MAX_STAKED_CONCURRENT_STREAMS {
                    QUIC_MAX_STAKED_CONCURRENT_STREAMS
                } else {
                    streams
                }
            }
        },
        ConnectionPeerType::Unstaked => QUIC_MAX_UNSTAKED_CONCURRENT_STREAMS,
    }
}

/// Twice the value of the ratio's line at `stake`, with the half added that
/// rounding needs, in units of the span between the least and the most
/// stake. It is not below zero for a stake between the two.
///
/// The line falls from the maximum ratio at the most stake by the span of
/// the ratios for each span of stake. 1025 is twice the maximum ratio and
/// one; 768 is twice the span of the ratios.
pub open spec fn doubled_ratio(max_stake: u64, min_stake: u64, stake: u64) -> int {
    1025 * (max_stake - min_stake) - 768 * (max_stake - stake)
}

/// The factors of `doubled_ratio` are those of the ratios in use.
pub proof fn lemma_doubled_ratio_factors()
    ensures
        1025 == 2 * QUIC_MAX_STAKED_RECEIVE_WINDOW_RATIO + 1,
        768 == 2 * (QUIC_MAX_STAKED_RECEIVE_WINDOW_RATIO - QUIC_MIN_STAKED_RECEIVE_WINDOW_RATIO),
{
}

/// The receive window of a staked peer, in packets.
///
/// Between the least and the most stake the ratio lies on the line that
/// gives the minimum ratio to the least stake and the maximum ratio to the
/// most: it is the value of that line at `stake`, rounded to the nearest
/// integer, a half rounded up. A peer with less than the least stake gets
/// the minimum ratio. A peer with more than the most stake, and every peer
/// where the most stake is not above the least, gets the maximum ratio.
pub open spec fn receive_window_ratio(max_stake: u64, min_stake: u64, stake: u64) -> int {
    if stake > max_stake || max_stake <= min_stake {
        QUIC_MAX_STAKED_RECEIVE_WINDOW_RATIO as int
    } else if stake < min_stake {
        QUIC_MIN_STAKED_RECEIVE_WINDOW_RATIO as int
    } else {
        doubled_ratio(max_stake, min_stake, stake) / (2 * (max_stake - min_stake))
    }
}

/// Calculate the ratio for per connection receive window from a staked peer
pub fn compute_receive_window_ratio_for_staked_node(max_stake: u64, min_stake: u64, stake: u64) -> (
    ratio: u64)
    ensures
        ratio == receive_window_ratio(max_stake, min_stake, stake),
        QUIC_MIN_STAKED_RECEIVE_WINDOW_RATIO <= ratio <= QUIC_MAX_STAKED_RECEIVE_WINDOW_RATIO,
{
    if stake > max_stake || max_stake <= min_stake {
        return QUIC_MAX_STAKED_RECEIVE_WINDOW_RATIO;
    }
    if stake < min_stake {
        return QUIC_MIN_STAKED_RECEIVE_WINDOW_RATIO;
    }
    let span: u128 = (max_stake - min_stake) as u128;
    let below_max: u128 = (max_stake - stake) as u128;
    let top: u128 = 1025 * span;
    let drop: u128 = 768 * below_max;
    proof {
        lemma_receive_window_ratio_bounds(max_stake, min_stake, stake);
    }
    let doubled: u128 = top - drop;
    let ratio: u128 = doubled / (2 * span);
    ratio as u64
}

proof fn lemma_ratio_of_top(span: int)
    requires
        0 < span,
    ensures
        (1025 * span) / (2 * span) == 512,
{
    assert(1025 * span == 512 * (2 * span) + span) by (nonlinear_arith);
    vstd::arithmetic::div_mod::lemma_fundamental_div_mod_converse(
        1025 * span,
        2 * span,
        512,
        span,
    );
}

proof fn lemma_ratio_of_bottom(span: int)
    requires
        0 < span,
    ensures
        (257 * span) / (2 * span) == 128,
{
    assert(257 * span == 128 * (2 * span) + span) by (nonlinear_arith);
    vstd::arithmetic::div_mod::lemma_fundamental_div_mod_converse(
        257 * span,
        2 * span,
        128,
        span,
    );
}

/// The receive window of a peer, in bytes: its ratio times the size of a
/// packet.
pub open spec fn receive_window(max_stake: u64, min_stake: u64, peer_type: ConnectionPeerType)
    -> int {
    match peer_type {
        ConnectionPeerType::Unstaked => PACKET_DATA_SIZE * QUIC_UNSTAKED_RECEIVE_WINDOW_RATIO,
        ConnectionPeerType::Staked(peer_stake) => PACKET_DATA_SIZE * receive_window_ratio(
            max_stake,
            min_stake,
            peer_stake,
        ),
    }
}

/// The receive window of a peer, as the transport takes it. With the ratios
/// that the server uses, the window is always one that the transport can
/// encode.
pub fn compute_recieve_window(max_stake: u64, min_stake: u64, peer_type: ConnectionPeerType) -> (
    window: Result<VarInt, VarIntBoundsExceeded>)
    ensures
        window is Ok,
        varint_value(window->Ok_0) == receive_window(max_stake, min_stake, peer_type),
{
    match peer_type {
        ConnectionPeerType::Unstaked => {
            varint_from_u64(PACKET_DATA_SIZE as u64 * QUIC_UNSTAKED_RECEIVE_WINDOW_RATIO)
        },
        ConnectionPeerType::Staked(peer_stake) => {
            let ratio: u64 = compute_receive_window_ratio_for_staked_node(
                max_stake,
                min_stake,
                peer_stake,
            );
            assert(1232 * ratio <= 1232 * 512) by (nonlinear_arith)
                requires
                    ratio <= 512,
            ;
            varint_from_u64(PACKET_DATA_SIZE as u64 * ratio)
        },
    }
}

/// The number of streams allowed lies within the bounds of the peer's class
/// for every stake, also for none at all and for more than the total.
pub proof fn lemma_max_allowed_uni_streams_bounds(peer_type: ConnectionPeerType, total_stake: u64)
    ensures
        peer_type is Unstaked ==> max_allowed_uni_streams(peer_type, total_stake)
            == QUIC_MAX_UNSTAKED_CONCURRENT_STREAMS,
        peer_type is Staked ==> QUIC_MIN_STAKED_CONCURRENT_STREAMS <= max_allowed_uni_streams(
            peer_type,
            total_stake,
        ) <= QUIC_MAX_STAKED_CONCURRENT_STREAMS,
{
}

/// With the total stake fixed, the number of streams allowed does not go
/// down as the stake goes up, as long as the stake is within the total. A
/// stake over the total is taken for an inconsistent snapshot and gets the
/// minimum, so it is compared only with stakes that get the minimum too.
pub proof fn lemma_max_allowed_uni_streams_monotonic(lower: u64, higher: u64, total_stake: u64)
    requires
        lower <= higher,
        higher <= total_stake || max_allowed_uni_streams(
            ConnectionPeerType::Staked(lower),
            total_stake,
        ) == QUIC_MIN_STAKED_CONCURRENT_STREAMS,
    ensures
        max_allowed_uni_streams(ConnectionPeerType::Staked(lower), total_stake)
            <= max_allowed_uni_streams(ConnectionPeerType::Staked(higher), total_stake),
{
    if total_stake > 0 && higher <= total_stake {
        lemma_mul_inequality(lower as int, higher as int, shared_streams());
        lemma_div_is_ordered(
            lower * shared_streams(),
            higher * shared_streams(),
            total_stake as int,
        );
    }
}

/// The ratio of the receive window lies within the minimum and the maximum
/// ratio for every stake, also for none at all, for less than the least and
/// for more than the most. At the most stake and over it, and wherever the
/// most stake is the least, it is the maximum ratio.
pub proof fn lemma_receive_window_ratio_bounds(max_stake: u64, min_stake: u64, stake: u64)
    ensures
        QUIC_MIN_STAKED_RECEIVE_WINDOW_RATIO <= receive_window_ratio(max_stake, min_stake, stake)
            <= QUIC_MAX_STAKED_RECEIVE_WINDOW_RATIO,
        stake >= max_stake || max_stake == min_stake ==> receive_window_ratio(
            max_stake,
            min_stake,
            stake,
        ) == QUIC_MAX_STAKED_RECEIVE_WINDOW_RATIO,
{
    if min_stake <= stake <= max_stake && max_stake > min_stake {
        let span = max_stake - min_stake;
        let doubled = doubled_ratio(max_stake, min_stake, stake);
        assert(257 * span <= doubled <= 1025 * span);
        lemma_div_is_ordered(doubled, 1025 * span, 2 * span);
        lemma_div_is_ordered(257 * span, doubled, 2 * span);
        lemma_ratio_of_top(span);
        lemma_ratio_of_bottom(span);
    }
}

/// With the least and the most stake fixed, the ratio of the receive window
/// does not go down as the stake goes up.
pub proof fn lemma_receive_window_ratio_monotonic(
    max_stake: u64,
    min_stake: u64,
    lower: u64,
    higher: u64,
)
    requires
        lower <= higher,
    ensures
        receive_window_ratio(max_stake, min_stake, lower) <= receive_window_ratio(
            max_stake,
            min_stake,
            higher,
        ),
{
    lemma_receive_window_ratio_bounds(max_stake, min_stake, lower);
    lemma_receive_window_ratio_bounds(max_stake, min_stake, higher);
    if min_stake <= lower && higher <= max_stake && max_stake > min_stake {
        let span = max_stake - min_stake;
        let doubled_lower = doubled_ratio(max_stake, min_stake, lower);
        let doubled_higher = doubled_ratio(max_stake, min_stake, higher);
        assert(doubled_lower <= doubled_higher);
        lemma_div_is_ordered(doubled_lower, doubled_higher, 2 * span);
    }
}

} // verus!

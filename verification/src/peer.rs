//! Peers: how a connection is classified and how it is keyed.

use vstd::prelude::*;

verus! {

/// Length of the window over which new streams of one peer are counted, in
/// milliseconds.
pub const STREAM_THROTTLING_INTERVAL_MS: u64 = 100;

/// The class of a peer, fixed when its connection is admitted.
#[derive(Clone, Copy, Debug, PartialEq, Eq, Structural)]
pub enum ConnectionPeerType {
    Unstaked,
    Staked(u64),
}

impl ConnectionPeerType {
    /// The stake that the class carries: zero for an unstaked peer.
    pub open spec fn stake_of(self) -> u64 {
        match self {
            ConnectionPeerType::Unstaked => 0,
            ConnectionPeerType::Staked(stake) => stake,
        }
    }

    pub fn is_staked(&self) -> (staked: bool)
        ensures
            staked == (*self is Staked),
    {
        match self {
            ConnectionPeerType::Unstaked => false,
            ConnectionPeerType::Staked(_) => true,
        }
    }

    pub fn stake(&self) -> (stake: u64)
        ensures
            stake == self.stake_of(),
    {
        match self {
            ConnectionPeerType::Unstaked => 0,
            ConnectionPeerType::Staked(stake) => *stake,
        }
    }
}

/// The class under which a peer with `stake` out of `total_stake` is admitted.
///
/// A peer whose share of the stake is below one stream per throttling
/// interval, that is below `1 / (max_streams_per_ms * interval)`, is treated
/// as unstaked. The comparison is made on the cross products, so it is exact.
pub open spec fn classify_stake_spec(
    stake: u64,
    total_stake: u64,
    max_streams_per_ms: u64,
) -> ConnectionPeerType {
    if stake * (max_streams_per_ms * STREAM_THROTTLING_INTERVAL_MS) < total_stake {
        ConnectionPeerType::Unstaked
    } else {
        ConnectionPeerType::Staked(stake)
    }
}

/// Classifies a peer found in the stake snapshot.
pub fn classify_stake(stake: u64, total_stake: u64, max_streams_per_ms: u64) -> (peer_type:
    ConnectionPeerType)
    ensures
        peer_type == classify_stake_spec(stake, total_stake, max_streams_per_ms),
{
    let streams_per_interval: u128 = (max_streams_per_ms as u128) * (
    STREAM_THROTTLING_INTERVAL_MS as u128);
    assert(streams_per_interval == max_streams_per_ms * STREAM_THROTTLING_INTERVAL_MS);
    assert(streams_per_interval <= 0xffff_ffff_ffff_ffff * 100) by (nonlinear_arith)
        requires
            streams_per_interval == max_streams_per_ms * 100,
            max_streams_per_ms <= 0xffff_ffff_ffff_ffff,
    ;
    if stake == 0 || streams_per_interval == 0 {
        assert(stake * (max_streams_per_ms * STREAM_THROTTLING_INTERVAL_MS) == 0) by (
            nonlinear_arith)
            requires
                stake == 0 || max_streams_per_ms * STREAM_THROTTLING_INTERVAL_MS == 0,
        ;
        if 0 < total_stake {
            ConnectionPeerType::Unstaked
        } else {
            ConnectionPeerType::Staked(stake)
        }
    } else {
        // `stake * streams_per_interval < total_stake` without the product:
        // the product may not fit in 128 bits.
        let total: u128 = total_stake as u128;
        let quotient: u128 = total / streams_per_interval;
        let remainder: u128 = total % streams_per_interval;
        let below: bool = (stake as u128) < quotient || ((stake as u128) == quotient && remainder
            > 0);
        proof {
            lemma_product_below(stake as int, streams_per_interval as int, total as int);
        }
        if below {
            ConnectionPeerType::Unstaked
        } else {
            ConnectionPeerType::Staked(stake)
        }
    }
}

/// For positive `m`: `s * m < t` exactly when `s` is below `t / m`, or equal
/// to it with a remainder left.
proof fn lemma_product_below(s: int, m: int, t: int)
    requires
        0 <= s,
        0 < m,
        0 <= t,
    ensures
        s * m < t <==> (s < t / m || (s == t / m && t % m > 0)),
{
    let q = t / m;
    let r = t % m;
    assert(t == m * q + r && 0 <= r < m) by {
        vstd::arithmetic::div_mod::lemma_fundamental_div_mod(t, m);
        vstd::arithmetic::div_mod::lemma_mod_bound(t, m);
    }
    if s < q {
        assert(s * m <= (q - 1) * m) by (nonlinear_arith)
            requires
                s <= q - 1,
                0 < m,
        ;
        assert((q - 1) * m == m * q - m) by (nonlinear_arith);
    } else if s == q {
        assert(s * m == m * q) by (nonlinear_arith)
            requires
                s == q,
        ;
    } else {
        assert(s * m >= (q + 1) * m) by (nonlinear_arith)
            requires
                s >= q + 1,
                0 < m,
        ;
        assert((q + 1) * m == m * q + m) by (nonlinear_arith);
    }
}

/// A network address of a peer, as the integer that its octets spell.
#[derive(Clone, Copy, Debug, PartialEq, Eq, Structural)]
pub enum IpAddress {
    V4(u32),
    V6(u128),
}

/// The verified identity of a peer: the 32 bytes of its public key, as two
/// big-endian halves.
#[derive(Clone, Copy, Debug, PartialEq, Eq, Structural)]
pub struct PeerPubkey {
    pub high: u128,
    pub low: u128,
}

/// What the connections of one peer are grouped under: its identity where it
/// has shown one, its address otherwise.
#[derive(Clone, Copy, Debug, PartialEq, Eq, Structural)]
pub enum ConnectionTableKey {
    IP(IpAddress),
    Pubkey(PeerPubkey),
}

/// The form in which a key is stored: a kind and two integers.
pub type KeyCode = (u8, u128, u128);

impl ConnectionTableKey {
    pub open spec fn new_spec(ip: IpAddress, maybe_pubkey: Option<PeerPubkey>) -> Self {
        match maybe_pubkey {
            Some(pubkey) => ConnectionTableKey::Pubkey(pubkey),
            None => ConnectionTableKey::IP(ip),
        }
    }

    /// The key of a peer: by identity when there is one, by address otherwise.
    pub fn new(ip: IpAddress, maybe_pubkey: Option<PeerPubkey>) -> (key: Self)
        ensures
            key == Self::new_spec(ip, maybe_pubkey),
    {
        match maybe_pubkey {
            Some(pubkey) => ConnectionTableKey::Pubkey(pubkey),
            None => ConnectionTableKey::IP(ip),
        }
    }

    pub open spec fn code_spec(self) -> KeyCode {
        match self {
            ConnectionTableKey::IP(IpAddress::V4(bits)) => (0u8, 0u128, bits as u128),
            ConnectionTableKey::IP(IpAddress::V6(bits)) => (1u8, 0u128, bits),
            ConnectionTableKey::Pubkey(pubkey) => (2u8, pubkey.high, pubkey.low),
        }
    }

    /// The stored form of the key.
    pub fn code(&self) -> (code: KeyCode)
        ensures
            code == self.code_spec(),
    {
        match self {
            ConnectionTableKey::IP(IpAddress::V4(bits)) => (0u8, 0u128, *bits as u128),
            ConnectionTableKey::IP(IpAddress::V6(bits)) => (1u8, 0u128, *bits),
            ConnectionTableKey::Pubkey(pubkey) => (2u8, pubkey.high, pubkey.low),
        }
    }

    /// Two keys with the same stored form are the same key.
    pub proof fn lemma_code_injective(a: Self, b: Self)
        requires
            a.code_spec() == b.code_spec(),
        ensures
            a == b,
    {
    }
}

} // verus!

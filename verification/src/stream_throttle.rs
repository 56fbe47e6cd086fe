//! The load estimator: a decaying average of the streams that staked peers
//! open, and from it the number of streams that a peer may open in one
//! throttling interval.

use crate::peer::ConnectionPeerType;
use crate::peer::STREAM_THROTTLING_INTERVAL_MS;
use vstd::arithmetic::div_mod::lemma_div_is_ordered;
use vstd::arithmetic::div_mod::lemma_div_is_ordered_by_denominator;
use vstd::arithmetic::mul::lemma_mul_inequality;
use vstd::prelude::*;

verus! {

/// The time between two updates of the average, in milliseconds.
pub const STREAM_LOAD_EMA_INTERVAL_MS: u64 = 5;

/// The number of intervals that the average looks back on.
pub const STREAM_LOAD_EMA_INTERVAL_COUNT: u64 = 10;

/// The window of the average, in milliseconds.
pub const EMA_WINDOW_MS: u64 = 50;

/// The share of all streams that is set aside for unstaked peers, in
/// percent.
pub const MAX_UNSTAKED_STREAMS_PERCENT: u64 = 20;

/// The share of the full load, in percent, below which the load is taken
/// for that share: staked peers are throttled by load only above it.
pub const STAKED_THROTTLING_ON_LOAD_THRESHOLD_PERCENT: u64 = 25;

/// The most streams per millisecond that the estimator is made for.
pub const MAX_STREAMS_PER_MS_LIMIT: u64 = 0x100_0000;

/// The weight of the recent load in the average, out of 1024: two parts in
/// one more than the number of intervals.
pub const EMA_SMOOTHING_OF_1024: u64 = 186;

/// The weight of the recent load is `2 / (intervals + 1)`, in 1024ths.
pub proof fn lemma_smoothing_factor()
    ensures
        EMA_SMOOTHING_OF_1024 == 2048int / (STREAM_LOAD_EMA_INTERVAL_COUNT + 1),
        EMA_WINDOW_MS == STREAM_LOAD_EMA_INTERVAL_MS * STREAM_LOAD_EMA_INTERVAL_COUNT,
{
}

/// One step of the average: the recent load with its weight, and the
/// average so far with the rest.
pub open spec fn ema_step(current_ema: int, recent_load: int) -> int {
    (recent_load * EMA_SMOOTHING_OF_1024 + current_ema * (1024 - EMA_SMOOTHING_OF_1024)) / 1024
}

/// The average after `steps` steps with the same recent load.
pub open spec fn ema_steps(current_ema: int, recent_load: int, steps: nat) -> int
    decreases steps,
{
    if steps == 0 {
        current_ema
    } else {
        ema_step(ema_steps(current_ema, recent_load, (steps - 1) as nat), recent_load)
    }
}

/// The number of steps that an update makes after `elapsed` milliseconds:
/// one for each interval gone by, and no more than the average looks back
/// on, and one.
pub open spec fn update_steps(elapsed: u64) -> nat {
    let intervals = elapsed / STREAM_LOAD_EMA_INTERVAL_MS;
    if intervals <= 1 {
        1
    } else if intervals - 1 > STREAM_LOAD_EMA_INTERVAL_COUNT {
        (STREAM_LOAD_EMA_INTERVAL_COUNT + 1) as nat
    } else {
        intervals as nat
    }
}

/// A step of the average lies between the average so far and the recent
/// load.
pub proof fn lemma_ema_step_between(current_ema: int, recent_load: int)
    requires
        0 <= current_ema,
        0 <= recent_load,
    ensures
        current_ema <= recent_load ==> current_ema <= ema_step(current_ema, recent_load)
            <= recent_load,
        recent_load <= current_ema ==> recent_load <= ema_step(current_ema, recent_load)
            <= current_ema,
{
    let sum = recent_load * 186 + current_ema * 838;
    if current_ema <= recent_load {
        assert(current_ema * 1024 <= sum <= recent_load * 1024);
    } else {
        assert(recent_load * 1024 <= sum <= current_ema * 1024);
    }
}

/// The average never leaves the range between where it began and the recent
/// load.
pub proof fn lemma_ema_steps_between(current_ema: int, recent_load: int, steps: nat)
    requires
        0 <= current_ema,
        0 <= recent_load,
    ensures
        current_ema <= recent_load ==> current_ema <= ema_steps(current_ema, recent_load, steps)
            <= recent_load,
        recent_load <= current_ema ==> recent_load <= ema_steps(current_ema, recent_load, steps)
            <= current_ema,
    decreases steps,
{
    if steps > 0 {
        lemma_ema_steps_between(current_ema, recent_load, (steps - 1) as nat);
        lemma_ema_step_between(
            ema_steps(current_ema, recent_load, (steps - 1) as nat),
            recent_load,
        );
    }
}

/// The load of staked peers in the window of the average at which the
/// server is at its target: what is left of the target once the share of
/// the unstaked peers is set aside, if unstaked peers are admitted at all.
pub open spec fn max_staked_load(max_unstaked_connections: usize, max_streams_per_ms: u64) -> int {
    if max_unstaked_connections > 0 {
        (max_streams_per_ms - (max_streams_per_ms * MAX_UNSTAKED_STREAMS_PERCENT) / 100)
            * EMA_WINDOW_MS
    } else {
        max_streams_per_ms * EMA_WINDOW_MS
    }
}

/// The streams that one unstaked connection may open in a throttling
/// interval: the share of the unstaked peers, divided among as many
/// connections as the table of unstaked peers holds.
pub open spec fn max_unstaked_load(max_unstaked_connections: usize, max_streams_per_ms: u64)
    -> int {
    if max_unstaked_connections > 0 {
        (((max_streams_per_ms * STREAM_THROTTLING_INTERVAL_MS) * MAX_UNSTAKED_STREAMS_PERCENT)
            / 100) / (max_unstaked_connections as int)
    } else {
        0
    }
}

/// The load that counts for throttling: the average, but no less than the
/// threshold.
pub open spec fn effective_load(current_load_ema: u64, threshold: u64) -> int {
    if current_load_ema > threshold {
        current_load_ema as int
    } else {
        threshold as int
    }
}

/// The streams that a staked peer may open in a throttling interval by its
/// stake alone: its share of the capacity that the load leaves. The
/// capacity shrinks as the load grows over the threshold.
pub open spec fn staked_capacity(max_load: u64, load: int, stake: u64, total_stake: u64) -> int {
    if load <= 0 || total_stake == 0 {
        0
    } else {
        (((max_load * max_load) * stake) / (load * total_stake)) * 2
    }
}

/// The throttling interval is twice the window of the average.
pub proof fn lemma_interval_is_two_windows()
    ensures
        STREAM_THROTTLING_INTERVAL_MS == 2 * EMA_WINDOW_MS,
{
}

/// The estimator of the load of staked peers. Times are in milliseconds.
pub struct StakedStreamLoadEMA {
    current_load_ema: u64,
    load_in_recent_interval: u64,
    last_update: u64,
    max_staked_load_in_ema_window: u64,
    max_unstaked_load_in_throttling_window: u64,
    staked_throttling_on_load_threshold: u64,
}

impl StakedStreamLoadEMA {
    /// The average of the load.
    pub closed spec fn current_load(&self) -> u64 {
        self.current_load_ema
    }

    /// The streams of staked peers counted since the last update.
    pub closed spec fn recent_load(&self) -> u64 {
        self.load_in_recent_interval
    }

    /// The time of the last update.
    pub closed spec fn last_update(&self) -> u64 {
        self.last_update
    }

    /// The load at which the server is at its target.
    pub closed spec fn max_load(&self) -> u64 {
        self.max_staked_load_in_ema_window
    }

    /// The streams that an unstaked connection may open in an interval.
    pub closed spec fn unstaked_load(&self) -> u64 {
        self.max_unstaked_load_in_throttling_window
    }

    /// The load below which staked peers are not throttled by load.
    pub closed spec fn threshold(&self) -> u64 {
        self.staked_throttling_on_load_threshold
    }

    /// The invariant of the estimator: the full load is one that the
    /// arithmetic of the capacity is made for.
    pub open spec fn wf(&self) -> bool {
        self.max_load() <= MAX_STREAMS_PER_MS_LIMIT * EMA_WINDOW_MS
    }

    /// An estimator without load, for a server that takes
    /// `max_streams_per_ms` streams in a millisecond and holds up to
    /// `max_unstaked_connections` unstaked connections.
    pub fn new(max_unstaked_connections: usize, max_streams_per_ms: u64, now: u64) -> (estimator:
        Self)
        requires
            max_streams_per_ms <= MAX_STREAMS_PER_MS_LIMIT,
        ensures
            estimator.wf(),
            estimator.current_load() == 0,
            estimator.recent_load() == 0,
            estimator.last_update() == now,
            estimator.max_load() == max_staked_load(max_unstaked_connections, max_streams_per_ms),
            estimator.unstaked_load() == max_unstaked_load(
                max_unstaked_connections,
                max_streams_per_ms,
            ),
            estimator.threshold() == (estimator.max_load()
                * STAKED_THROTTLING_ON_LOAD_THRESHOLD_PERCENT) / 100,
    {
        let allow_unstaked_streams: bool = max_unstaked_connections > 0;
        let max_staked_load_in_ema_window: u64 = if allow_unstaked_streams {
            (max_streams_per_ms - (max_streams_per_ms * MAX_UNSTAKED_STREAMS_PERCENT) / 100)
                * EMA_WINDOW_MS
        } else {
            max_streams_per_ms * EMA_WINDOW_MS
        };
        let max_unstaked_load_in_throttling_window: u64 = if allow_unstaked_streams {
            let share: u128 = (((max_streams_per_ms * STREAM_THROTTLING_INTERVAL_MS)
                * MAX_UNSTAKED_STREAMS_PERCENT) / 100) as u128;
            let each: u128 = share / (max_unstaked_connections as u128);
            proof {
                lemma_div_is_ordered_by_denominator(
                    share as int,
                    1,
                    max_unstaked_connections as int,
                );
            }
            each as u64
        } else {
            0
        };
        let staked_throttling_on_load_threshold: u64 = (max_staked_load_in_ema_window
            * STAKED_THROTTLING_ON_LOAD_THRESHOLD_PERCENT) / 100;
        StakedStreamLoadEMA {
            current_load_ema: 0,
            load_in_recent_interval: 0,
            last_update: now,
            max_staked_load_in_ema_window,
            max_unstaked_load_in_throttling_window,
            staked_throttling_on_load_threshold,
        }
    }

    /// Counts a stream of a staked peer towards the load. The count stays
    /// at its largest value once it has reached it.
    pub fn increment_load(&mut self, peer_type: ConnectionPeerType)
        ensures
            final(self).recent_load() == if peer_type is Staked && old(self).recent_load()
                < u64::MAX {
                (old(self).recent_load() + 1) as u64
            } else {
                old(self).recent_load()
            },
            final(self).current_load() == old(self).current_load(),
            final(self).last_update() == old(self).last_update(),
            final(self).max_load() == old(self).max_load(),
            final(self).unstaked_load() == old(self).unstaked_load(),
            final(self).threshold() == old(self).threshold(),
    {
        match peer_type {
            ConnectionPeerType::Unstaked => {},
            ConnectionPeerType::Staked(_) => {
                if self.load_in_recent_interval < u64::MAX {
                    self.load_in_recent_interval = self.load_in_recent_interval + 1;
                }
            },
        }
    }

    /// Brings the average up to `now`, if an interval has gone by since the
    /// last update: the load counted since then enters the average, once
    /// for each interval gone by, and the count begins anew.
    pub fn update_ema_if_needed(&mut self, now: u64)
        ensures
            final(self).max_load() == old(self).max_load(),
            final(self).unstaked_load() == old(self).unstaked_load(),
            final(self).threshold() == old(self).threshold(),
            now >= old(self).last_update() && now - old(self).last_update()
                >= STREAM_LOAD_EMA_INTERVAL_MS ==> {
                &&& final(self).current_load() == ema_steps(
                    old(self).current_load() as int,
                    old(self).recent_load() as int,
                    update_steps((now - old(self).last_update()) as u64),
                )
                &&& final(self).recent_load() == 0
                &&& final(self).last_update() == now
            },
            !(now >= old(self).last_update() && now - old(self).last_update()
                >= STREAM_LOAD_EMA_INTERVAL_MS) ==> {
                &&& final(self).current_load() == old(self).current_load()
                &&& final(self).recent_load() == old(self).recent_load()
                &&& final(self).last_update() == old(self).last_update()
            },
    {
        if now >= self.last_update && now - self.last_update >= STREAM_LOAD_EMA_INTERVAL_MS {
            let elapsed: u64 = now - self.last_update;
            let intervals: u64 = elapsed / STREAM_LOAD_EMA_INTERVAL_MS;
            let steps: u64 = if intervals <= 1 {
                1
            } else if intervals - 1 > STREAM_LOAD_EMA_INTERVAL_COUNT {
                STREAM_LOAD_EMA_INTERVAL_COUNT + 1
            } else {
                intervals
            };
            let recent: u64 = self.load_in_recent_interval;
            let ghost start = self.current_load_ema;
            let mut ema: u64 = self.current_load_ema;
            let mut done: u64 = 0;
            while done < steps
                invariant
                    done <= steps,
                    ema == ema_steps(start as int, recent as int, done as nat),
                decreases steps - done,
            {
                proof {
                    lemma_ema_step_between(ema as int, recent as int);
                }
                let sum: u128 = (recent as u128) * (EMA_SMOOTHING_OF_1024 as u128) + (ema as u128)
                    * ((1024 - EMA_SMOOTHING_OF_1024) as u128);
                ema = (sum / 1024) as u64;
                done = done + 1;
            }
            self.current_load_ema = ema;
            self.load_in_recent_interval = 0;
            self.last_update = now;
        }
    }

    /// The streams that a peer may open in the current throttling interval.
    ///
    /// An unstaked peer gets the share of one unstaked connection. A staked
    /// peer gets its share of the capacity that the load of the staked
    /// peers leaves, and at least one stream more than an unstaked peer.
    pub fn available_load_capacity_in_throttling_duration(
        &self,
        peer_type: ConnectionPeerType,
        total_stake: u64,
    ) -> (capacity: u64)
        requires
            self.wf(),
        ensures
            capacity == available_capacity(
                self.max_load(),
                self.unstaked_load(),
                effective_load(self.current_load(), self.threshold()),
                peer_type,
                total_stake,
            ),
    {
        match peer_type {
            ConnectionPeerType::Unstaked => self.max_unstaked_load_in_throttling_window,
            ConnectionPeerType::Staked(stake) => {
                let at_least: u64 = if self.max_unstaked_load_in_throttling_window < u64::MAX {
                    self.max_unstaked_load_in_throttling_window + 1
                } else {
                    u64::MAX
                };
                let load: u64 = if self.current_load_ema
                    > self.staked_throttling_on_load_threshold {
                    self.current_load_ema
                } else {
                    self.staked_throttling_on_load_threshold
                };
                if load == 0 || total_stake == 0 {
                    return at_least;
                }
                let max_load: u128 = self.max_staked_load_in_ema_window as u128;
                proof {
                    assert(max_load * max_load <= 0x3200_0000 * 0x3200_0000) by (nonlinear_arith)
                        requires
                            max_load <= 0x3200_0000,
                    ;
                    assert((max_load * max_load) * stake <= (0x3200_0000 * 0x3200_0000)
                        * 0xffff_ffff_ffff_ffff) by (nonlinear_arith)
                        requires
                            max_load * max_load <= 0x3200_0000 * 0x3200_0000,
                            stake <= 0xffff_ffff_ffff_ffff,
                    ;
                    assert(1 <= load * total_stake <= 0xffff_ffff_ffff_ffff
                        * 0xffff_ffff_ffff_ffff) by (nonlinear_arith)
                        requires
                            1 <= load <= 0xffff_ffff_ffff_ffff,
                            1 <= total_stake <= 0xffff_ffff_ffff_ffff,
                    ;
                    lemma_div_is_ordered_by_denominator(
                        ((max_load * max_load) * stake) as int,
                        1,
                        (load * total_stake) as int,
                    );
                }
                let numerator: u128 = (max_load * max_load) * (stake as u128);
                let denominator: u128 = (load as u128) * (total_stake as u128);
                let calculated: u128 = (numerator / denominator) * 2;
                if calculated > at_least as u128 {
                    if calculated > u64::MAX as u128 {
                        u64::MAX
                    } else {
                        calculated as u64
                    }
                } else {
                    at_least
                }
            },
        }
    }
}

/// The streams that a peer may open in a throttling interval, under a load
/// of `load`.
pub open spec fn available_capacity(
    max_load: u64,
    unstaked_load: u64,
    load: int,
    peer_type: ConnectionPeerType,
    total_stake: u64,
) -> int {
    match peer_type {
        ConnectionPeerType::Unstaked => unstaked_load as int,
        ConnectionPeerType::Staked(stake) => {
            let by_stake = staked_capacity(max_load, load, stake, total_stake);
            let at_least = if unstaked_load < u64::MAX {
                unstaked_load + 1
            } else {
                u64::MAX as int
            };
            if by_stake > at_least {
                if by_stake > u64::MAX {
                    u64::MAX as int
                } else {
                    by_stake
                }
            } else {
                at_least
            }
        },
    }
}

/// A staked peer is allowed no fewer streams than an unstaked one, and one
/// more wherever there is one more to give.
pub proof fn lemma_staked_capacity_over_unstaked(
    max_load: u64,
    unstaked_load: u64,
    load: int,
    stake: u64,
    total_stake: u64,
)
    ensures
        available_capacity(
            max_load,
            unstaked_load,
            load,
            ConnectionPeerType::Staked(stake),
            total_stake,
        ) >= available_capacity(
            max_load,
            unstaked_load,
            load,
            ConnectionPeerType::Unstaked,
            total_stake,
        ),
        unstaked_load < u64::MAX ==> available_capacity(
            max_load,
            unstaked_load,
            load,
            ConnectionPeerType::Staked(stake),
            total_stake,
        ) > unstaked_load,
{
}

/// With load and total stake fixed, a peer with more stake is allowed no
/// fewer streams.
pub proof fn lemma_capacity_monotonic_in_stake(
    max_load: u64,
    unstaked_load: u64,
    load: int,
    lower: u64,
    higher: u64,
    total_stake: u64,
)
    requires
        lower <= higher,
    ensures
        available_capacity(
            max_load,
            unstaked_load,
            load,
            ConnectionPeerType::Staked(lower),
            total_stake,
        ) <= available_capacity(
            max_load,
            unstaked_load,
            load,
            ConnectionPeerType::Staked(higher),
            total_stake,
        ),
{
    if load > 0 && total_stake > 0 {
        let square = max_load * max_load;
        assert(0 <= square) by (nonlinear_arith)
            requires
                square == max_load * max_load,
        ;
        lemma_mul_inequality(lower as int, higher as int, square);
        assert(square * lower == lower * square) by (nonlinear_arith);
        assert(square * higher == higher * square) by (nonlinear_arith);
        assert(0 < load * total_stake) by (nonlinear_arith)
            requires
                0 < load,
                0 < total_stake,
        ;
        lemma_div_is_ordered(square * lower, square * higher, load * total_stake);
    }
}

/// With stake fixed, a peer is allowed no more streams under a higher load.
pub proof fn lemma_capacity_falls_with_load(
    max_load: u64,
    unstaked_load: u64,
    lighter: int,
    heavier: int,
    stake: u64,
    total_stake: u64,
)
    requires
        0 < lighter <= heavier,
    ensures
        available_capacity(
            max_load,
            unstaked_load,
            heavier,
            ConnectionPeerType::Staked(stake),
            total_stake,
        ) <= available_capacity(
            max_load,
            unstaked_load,
            lighter,
            ConnectionPeerType::Staked(stake),
            total_stake,
        ),
{
    if total_stake > 0 {
        let numerator = (max_load * max_load) * stake;
        assert(0 <= numerator) by (nonlinear_arith)
            requires
                numerator == (max_load * max_load) * stake,
                0 <= stake,
        ;
        assert(0 < lighter * total_stake <= heavier * total_stake) by (nonlinear_arith)
            requires
                0 < lighter <= heavier,
                0 < total_stake,
        ;
        lemma_div_is_ordered_by_denominator(
            numerator,
            lighter * total_stake,
            heavier * total_stake,
        );
    }
}

} // verus!
